//! Time model: block positions, waiting periods, and release points.
//!
//! Heights are block numbers; times are seconds. The executor converts the
//! host ledger's clock into these plain values.

use vstd::prelude::*;

verus! {

/// A waiting period, counted in blocks or in seconds.
#[derive(Debug, Clone, Copy, PartialEq, Eq)]
pub enum Duration {
    Height(u64),
    Time(u64),
}

/// An absolute release point: a block height or a time in seconds.
#[derive(Debug, Clone, Copy, PartialEq, Eq)]
pub enum Expiration {
    AtHeight(u64),
    AtTime(u64),
}

/// The current block: its height and its time in seconds.
#[derive(Debug, Clone, Copy, PartialEq, Eq)]
pub struct BlockInfo {
    pub height: u64,
    pub time: u64,
}

/// Whether adding the period to the block stays within the counters.
pub open spec fn duration_fits(d: Duration, b: BlockInfo) -> bool {
    match d {
        Duration::Height(h) => b.height + h <= u64::MAX,
        Duration::Time(t) => b.time + t <= u64::MAX,
    }
}

/// The release point reached by waiting one period from a block.
pub open spec fn spec_after(d: Duration, b: BlockInfo) -> Expiration {
    match d {
        Duration::Height(h) => Expiration::AtHeight((b.height + h) as u64),
        Duration::Time(t) => Expiration::AtTime((b.time + t) as u64),
    }
}

/// Whether a release point has been reached at a block.
pub open spec fn spec_is_expired(e: Expiration, b: BlockInfo) -> bool {
    match e {
        Expiration::AtHeight(h) => b.height >= h,
        Expiration::AtTime(t) => b.time >= t,
    }
}

impl Duration {
    /// The release point one period after the given block.
    pub fn after(&self, b: &BlockInfo) -> (e: Expiration)
        requires
            duration_fits(*self, *b),
        ensures
            e == spec_after(*self, *b),
    {
        match self {
            Duration::Height(h) => Expiration::AtHeight(b.height + *h),
            Duration::Time(t) => Expiration::AtTime(b.time + *t),
        }
    }
}

impl Expiration {
    /// Whether this release point has been reached at the given block.
    pub fn is_expired(&self, b: &BlockInfo) -> (r: bool)
        ensures
            r == spec_is_expired(*self, *b),
    {
        match self {
            Expiration::AtHeight(h) => b.height >= *h,
            Expiration::AtTime(t) => b.time >= *t,
        }
    }
}

} // verus!
