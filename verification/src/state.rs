//! Pool state: the validator registry with its bonded-amount ordering, the
//! claim ledger, the aggregate counters, and the configured roles.

use vstd::prelude::*;

use crate::order::{lemma_lex_lt_asym, lemma_lex_lt_connex, lemma_lex_lt_trans};
use crate::order::{lex_lt, str_bytes};
use crate::time::{Duration, Expiration};

verus! {

/// One validator's record: the denomination it accepts, its unbonding
/// period, and the amounts this pool has bonded to and claimed from it.
#[derive(Debug, Clone, PartialEq, Eq)]
pub struct ValidatorInfo {
    pub bond_denom: String,
    pub unbonding_period: Duration,
    pub bonded: u128,
    pub claimed: u128,
}

/// A registry entry: the validator's address together with its record.
#[derive(Debug, Clone, PartialEq, Eq)]
pub struct ValidatorEntry {
    pub address: String,
    pub info: ValidatorInfo,
}

/// One pending time-locked release owed to a depositor.
#[derive(Debug, Clone, PartialEq, Eq)]
pub struct PendingClaim {
    pub owner: String,
    pub amount: u128,
    pub release_at: Expiration,
}

/// The whole pool state. The registry `validators` is kept sorted ascending
/// by (bonded, address): the ordering view of the registry is this very
/// order, so it can never go stale with respect to the records.
#[derive(Debug, Clone, PartialEq, Eq)]
pub struct State {
    pub agent: String,
    pub manager: String,
    pub treasury: String,
    /// Currently bonded; always the sum of the registry's bonded amounts.
    pub bonded: u128,
    /// Currently awaiting release; always the sum of the pending claims.
    pub claimed: u128,
    /// Lifetime total bonded.
    pub total_bonded: u128,
    /// Lifetime total claimed.
    pub total_claimed: u128,
    pub validators: Vec<ValidatorEntry>,
    pub claims: Vec<PendingClaim>,
}

/// The registry key of an entry: the address bytes.
pub open spec fn addr_b(e: ValidatorEntry) -> Seq<u8> {
    str_bytes(e.address@)
}

/// Strict registry order: by bonded amount, ties by address bytes.
pub open spec fn entry_lt(x: ValidatorEntry, y: ValidatorEntry) -> bool {
    x.info.bonded < y.info.bonded || (x.info.bonded == y.info.bonded && lex_lt(
        addr_b(x),
        addr_b(y),
    ))
}

/// The registry is sorted strictly ascending by (bonded, address).
pub open spec fn registry_sorted(s: Seq<ValidatorEntry>) -> bool {
    forall|i: int, j: int|
        0 <= i < j < s.len() ==> #[trigger] entry_lt(s[i], s[j])
}

/// No two entries share an address.
pub open spec fn registry_unique(s: Seq<ValidatorEntry>) -> bool {
    forall|i: int, j: int|
        0 <= i < s.len() && 0 <= j < s.len() && i != j ==> #[trigger] addr_b(s[i])
            != #[trigger] addr_b(s[j])
}

/// Whether some entry has these address bytes.
pub open spec fn contains_addr(s: Seq<ValidatorEntry>, ab: Seq<u8>) -> bool {
    exists|i: int| 0 <= i < s.len() && #[trigger] addr_b(s[i]) == ab
}

/// The index of the entry with these address bytes (meaningful when
/// `contains_addr` holds and the registry is unique).
pub open spec fn idx_of(s: Seq<ValidatorEntry>, ab: Seq<u8>) -> int {
    choose|i: int| 0 <= i < s.len() && #[trigger] addr_b(s[i]) == ab
}

/// The entry with these address bytes.
pub open spec fn entry_at(s: Seq<ValidatorEntry>, ab: Seq<u8>) -> ValidatorEntry {
    s[idx_of(s, ab)]
}

/// Sum of the bonded amounts of all entries.
pub open spec fn sum_bonded(s: Seq<ValidatorEntry>) -> int
    decreases s.len(),
{
    if s.len() == 0 {
        0
    } else {
        s[0].info.bonded + sum_bonded(s.drop_first())
    }
}

/// Sum of the amounts of all pending claims.
pub open spec fn sum_claims(s: Seq<PendingClaim>) -> int
    decreases s.len(),
{
    if s.len() == 0 {
        0
    } else {
        s[0].amount + sum_claims(s.drop_first())
    }
}

/// The observable content of one pending claim: owner bytes, amount,
/// release time.
pub open spec fn claim_view(c: PendingClaim) -> (Seq<u8>, int, Expiration) {
    (str_bytes(c.owner@), c.amount as int, c.release_at)
}

/// The observable content of the claim ledger, in ledger order.
pub open spec fn claims_view(s: Seq<PendingClaim>) -> Seq<(Seq<u8>, int, Expiration)> {
    Seq::new(s.len(), |i: int| claim_view(s[i]))
}

impl State {
    /// Internal consistency of the pool state: the registry order is intact
    /// and unique, and the aggregate counters match the records they
    /// summarize.
    pub open spec fn wf(self) -> bool {
        &&& registry_sorted(self.validators@)
        &&& registry_unique(self.validators@)
        &&& sum_bonded(self.validators@) == self.bonded as int
        &&& sum_claims(self.claims@) == self.claimed as int
        &&& forall|i: int|
            0 <= i < self.claims@.len() ==> #[trigger] self.claims@[i].amount > 0
    }

    /// A fresh pool with the given roles: no validators, no claims, all
    /// counters zero.
    pub fn new(agent: String, manager: String, treasury: String) -> (s: State)
        ensures
            s.agent == agent,
            s.manager == manager,
            s.treasury == treasury,
            s.bonded == 0,
            s.claimed == 0,
            s.total_bonded == 0,
            s.total_claimed == 0,
            s.validators@.len() == 0,
            s.claims@.len() == 0,
            s.wf(),
    {
        State {
            agent,
            manager,
            treasury,
            bonded: 0,
            claimed: 0,
            total_bonded: 0,
            total_claimed: 0,
            validators: Vec::new(),
            claims: Vec::new(),
        }
    }
}

/// The registry order relates every pair of entries with distinct addresses.
pub proof fn lemma_entry_lt_connex(x: ValidatorEntry, y: ValidatorEntry)
    requires
        addr_b(x) != addr_b(y),
    ensures
        entry_lt(x, y) || entry_lt(y, x),
{
    if x.info.bonded == y.info.bonded {
        lemma_lex_lt_connex(addr_b(x), addr_b(y));
    }
}

/// The registry order is transitive.
pub proof fn lemma_entry_lt_trans(x: ValidatorEntry, y: ValidatorEntry, z: ValidatorEntry)
    requires
        entry_lt(x, y),
        entry_lt(y, z),
    ensures
        entry_lt(x, z),
{
    if x.info.bonded == y.info.bonded && y.info.bonded == z.info.bonded {
        lemma_lex_lt_trans(addr_b(x), addr_b(y), addr_b(z));
    }
}

/// The registry order is asymmetric.
pub proof fn lemma_entry_lt_asym(x: ValidatorEntry, y: ValidatorEntry)
    requires
        entry_lt(x, y),
    ensures
        !entry_lt(y, x),
{
    if x.info.bonded == y.info.bonded {
        lemma_lex_lt_asym(addr_b(x), addr_b(y));
    }
}

/// Bonded sums are never negative.
pub proof fn lemma_sum_bonded_nonneg(s: Seq<ValidatorEntry>)
    ensures
        sum_bonded(s) >= 0,
    decreases s.len(),
{
    if s.len() > 0 {
        lemma_sum_bonded_nonneg(s.drop_first());
    }
}

/// Inserting an entry adds its bonded amount to the sum.
pub proof fn lemma_sum_bonded_insert(s: Seq<ValidatorEntry>, p: int, e: ValidatorEntry)
    requires
        0 <= p <= s.len(),
    ensures
        sum_bonded(s.insert(p, e)) == sum_bonded(s) + e.info.bonded,
    decreases p,
{
    let t = s.insert(p, e);
    if p == 0 {
        assert(t.drop_first() =~= s);
    } else {
        assert(t[0] == s[0]);
        assert(t.drop_first() =~= s.drop_first().insert(p - 1, e));
        lemma_sum_bonded_insert(s.drop_first(), p - 1, e);
    }
}

/// Removing an entry subtracts its bonded amount from the sum.
pub proof fn lemma_sum_bonded_remove(s: Seq<ValidatorEntry>, i: int)
    requires
        0 <= i < s.len(),
    ensures
        sum_bonded(s.remove(i)) == sum_bonded(s) - s[i].info.bonded,
    decreases i,
{
    let t = s.remove(i);
    if i == 0 {
        assert(t =~= s.drop_first());
    } else {
        assert(t[0] == s[0]);
        assert(t.drop_first() =~= s.drop_first().remove(i - 1));
        lemma_sum_bonded_remove(s.drop_first(), i - 1);
    }
}

/// Updating an entry in place changes the sum by the difference.
pub proof fn lemma_sum_bonded_update(s: Seq<ValidatorEntry>, i: int, e: ValidatorEntry)
    requires
        0 <= i < s.len(),
    ensures
        sum_bonded(s.update(i, e)) == sum_bonded(s) - s[i].info.bonded + e.info.bonded,
{
    lemma_sum_bonded_remove(s, i);
    lemma_sum_bonded_insert(s.remove(i), i, e);
    assert(s.update(i, e) =~= s.remove(i).insert(i, e));
}

/// Each entry's bonded amount is at most the registry sum.
pub proof fn lemma_entry_bonded_le_sum(s: Seq<ValidatorEntry>, i: int)
    requires
        0 <= i < s.len(),
    ensures
        s[i].info.bonded <= sum_bonded(s),
{
    lemma_sum_bonded_remove(s, i);
    lemma_sum_bonded_nonneg(s.remove(i));
}

/// In a unique registry, `entry_at`/`idx_of` resolve to any index that
/// carries the address.
pub proof fn lemma_entry_at_is(s: Seq<ValidatorEntry>, i: int)
    requires
        registry_unique(s),
        0 <= i < s.len(),
    ensures
        contains_addr(s, addr_b(s[i])),
        idx_of(s, addr_b(s[i])) == i,
        entry_at(s, addr_b(s[i])) == s[i],
{
    assert(contains_addr(s, addr_b(s[i])));
    let j = idx_of(s, addr_b(s[i]));
    assert(0 <= j < s.len() && addr_b(s[j]) == addr_b(s[i]));
}

/// Claim sums are never negative.
pub proof fn lemma_sum_claims_nonneg(s: Seq<PendingClaim>)
    ensures
        sum_claims(s) >= 0,
    decreases s.len(),
{
    if s.len() > 0 {
        lemma_sum_claims_nonneg(s.drop_first());
    }
}

/// Appending a claim adds its amount to the sum.
pub proof fn lemma_sum_claims_push(s: Seq<PendingClaim>, c: PendingClaim)
    ensures
        sum_claims(s.push(c)) == sum_claims(s) + c.amount,
    decreases s.len(),
{
    if s.len() == 0 {
        assert(s.push(c).drop_first() =~= s);
    } else {
        assert(s.push(c)[0] == s[0]);
        assert(s.push(c).drop_first() =~= s.drop_first().push(c));
        lemma_sum_claims_push(s.drop_first(), c);
    }
}

} // verus!
