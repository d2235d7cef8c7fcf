//! Registry operations. The registry vector is kept sorted strictly
//! ascending by (bonded, address); every write repositions the touched
//! entry so the ordering view and the record can never disagree.

use vstd::prelude::*;

use crate::order::{str_bytes, str_bytes_eq, str_lex_lt};
use crate::state::{addr_b, contains_addr, entry_at, entry_lt, idx_of, registry_sorted,
    registry_unique, sum_bonded};
use crate::state::{lemma_entry_at_is, lemma_entry_lt_connex, lemma_entry_lt_trans,
    lemma_sum_bonded_insert, lemma_sum_bonded_remove};
use crate::state::ValidatorEntry;

verus! {

/// Exec comparison in the registry order: by bonded amount, ties by
/// address bytes.
pub fn entry_lt_exec(x: &ValidatorEntry, y: &ValidatorEntry) -> (r: bool)
    ensures
        r == entry_lt(*x, *y),
{
    if x.info.bonded < y.info.bonded {
        true
    } else if x.info.bonded == y.info.bonded {
        str_lex_lt(x.address.as_str(), y.address.as_str())
    } else {
        false
    }
}

/// The index of the entry holding this address, if any.
pub fn registry_find(v: &Vec<ValidatorEntry>, address: &str) -> (r: Option<usize>)
    ensures
        r is Some == contains_addr(v@, str_bytes(address@)),
        match r {
            Some(i) => i < v@.len() && addr_b(v@[i as int]) == str_bytes(address@),
            None => true,
        },
{
    let mut i: usize = 0;
    while i < v.len()
        invariant
            0 <= i <= v@.len(),
            forall|j: int| 0 <= j < i ==> #[trigger] addr_b(v@[j]) != str_bytes(address@),
        decreases v@.len() - i,
    {
        if str_bytes_eq(v[i].address.as_str(), address) {
            proof {
                assert(addr_b(v@[i as int]) == str_bytes(address@));
                assert(contains_addr(v@, str_bytes(address@)));
            }
            return Some(i);
        }
        i += 1;
    }
    None
}

/// The insertion position of a fresh entry in the sorted registry.
fn find_insert_pos(v: &Vec<ValidatorEntry>, e: &ValidatorEntry) -> (p: usize)
    requires
        registry_sorted(v@),
        registry_unique(v@),
        !contains_addr(v@, addr_b(*e)),
    ensures
        p <= v@.len(),
        forall|j: int| 0 <= j < p ==> #[trigger] entry_lt(v@[j], *e),
        p < v@.len() ==> entry_lt(*e, v@[p as int]),
{
    let mut p: usize = 0;
    while p < v.len()
        invariant
            registry_sorted(v@),
            registry_unique(v@),
            !contains_addr(v@, addr_b(*e)),
            0 <= p <= v@.len(),
            forall|j: int| 0 <= j < p ==> #[trigger] entry_lt(v@[j], *e),
        decreases v@.len() - p,
    {
        if entry_lt_exec(e, &v[p]) {
            return p;
        }
        proof {
            assert(addr_b(v@[p as int]) != addr_b(*e)) by {
                if addr_b(v@[p as int]) == addr_b(*e) {
                    assert(contains_addr(v@, addr_b(*e)));
                }
            }
            lemma_entry_lt_connex(v@[p as int], *e);
        }
        p += 1;
    }
    p
}

/// Insert a record for an address that is not yet registered, at its
/// position in the ordering.
pub fn registry_insert(v: &mut Vec<ValidatorEntry>, e: ValidatorEntry)
    requires
        registry_sorted(old(v)@),
        registry_unique(old(v)@),
        !contains_addr(old(v)@, addr_b(e)),
    ensures
        registry_sorted(final(v)@),
        registry_unique(final(v)@),
        final(v)@.len() == old(v)@.len() + 1,
        sum_bonded(final(v)@) == sum_bonded(old(v)@) + e.info.bonded,
        forall|ab: Seq<u8>|
            #[trigger] contains_addr(final(v)@, ab) == (contains_addr(old(v)@, ab) || ab
                == addr_b(e)),
        entry_at(final(v)@, addr_b(e)) == e,
        forall|ab: Seq<u8>|
            #[trigger] contains_addr(old(v)@, ab) ==> entry_at(final(v)@, ab) == entry_at(
                old(v)@,
                ab,
            ),
{
    let ghost s0 = v@;
    let p = find_insert_pos(v, &e);
    v.insert(p, e);
    proof {
        let t = v@;
        let pi = p as int;
        assert(t == s0.insert(pi, e));
        assert(t.len() == s0.len() + 1);
        assert(forall|k: int| 0 <= k < pi ==> t[k] == s0[k]);
        assert(t[pi] == e);
        assert(forall|k: int| pi < k < t.len() ==> t[k] == s0[k - 1]);

        lemma_sum_bonded_insert(s0, pi, e);

        // every old entry's address differs from the new one
        assert forall|k: int| 0 <= k < s0.len() implies addr_b(s0[k]) != addr_b(e) by {
            if addr_b(s0[k]) == addr_b(e) {
                assert(contains_addr(s0, addr_b(e)));
            }
        }

        // order restored
        assert forall|i: int, j: int| 0 <= i < j < t.len() implies #[trigger] entry_lt(
            t[i],
            t[j],
        ) by {
            if j < pi {
            } else if i < pi && j == pi {
            } else if i < pi && j > pi {
            } else if i == pi {
                if j > pi + 1 {
                    lemma_entry_lt_trans(e, s0[pi], s0[j - 1]);
                }
            }
        }

        // addresses still pairwise distinct
        assert forall|i: int, j: int|
            0 <= i < t.len() && 0 <= j < t.len() && i != j implies #[trigger] addr_b(t[i])
            != #[trigger] addr_b(t[j]) by {}

        // membership: exactly the old addresses plus the new one
        assert forall|ab: Seq<u8>| #[trigger] contains_addr(t, ab) == (contains_addr(s0, ab)
            || ab == addr_b(e)) by {
            if contains_addr(t, ab) {
                let i = choose|i: int| 0 <= i < t.len() && #[trigger] addr_b(t[i]) == ab;
                if i < pi {
                    assert(addr_b(s0[i]) == ab);
                } else if i > pi {
                    assert(addr_b(s0[i - 1]) == ab);
                }
            }
            if contains_addr(s0, ab) {
                let i = choose|i: int| 0 <= i < s0.len() && #[trigger] addr_b(s0[i]) == ab;
                if i < pi {
                    assert(addr_b(t[i]) == ab);
                } else {
                    assert(addr_b(t[i + 1]) == ab);
                }
                assert(contains_addr(t, ab));
            }
            if ab == addr_b(e) {
                assert(addr_b(t[pi]) == ab);
                assert(contains_addr(t, ab));
            }
        }

        lemma_entry_at_is(t, pi);

        // old entries keep their records
        assert forall|ab: Seq<u8>| #[trigger] contains_addr(s0, ab) implies entry_at(t, ab)
            == entry_at(s0, ab) by {
            let i = idx_of(s0, ab);
            assert(0 <= i < s0.len() && addr_b(s0[i]) == ab);
            lemma_entry_at_is(s0, i);
            if i < pi {
                lemma_entry_at_is(t, i);
            } else {
                lemma_entry_at_is(t, i + 1);
            }
        }
    }
}

/// Remove the entry at a known index.
pub fn registry_remove(v: &mut Vec<ValidatorEntry>, i: usize) -> (e: ValidatorEntry)
    requires
        registry_sorted(old(v)@),
        registry_unique(old(v)@),
        i < old(v)@.len(),
    ensures
        e == old(v)@[i as int],
        final(v)@ == old(v)@.remove(i as int),
        registry_sorted(final(v)@),
        registry_unique(final(v)@),
        final(v)@.len() == old(v)@.len() - 1,
        sum_bonded(final(v)@) == sum_bonded(old(v)@) - e.info.bonded,
        forall|ab: Seq<u8>|
            #[trigger] contains_addr(final(v)@, ab) == (contains_addr(old(v)@, ab) && ab
                != addr_b(e)),
        forall|ab: Seq<u8>|
            #[trigger] contains_addr(old(v)@, ab) && ab != addr_b(e) ==> entry_at(
                final(v)@,
                ab,
            ) == entry_at(old(v)@, ab),
{
    let ghost s0 = v@;
    let e = v.remove(i);
    proof {
        let t = v@;
        let ii = i as int;
        assert(t == s0.remove(ii));
        assert(forall|k: int| 0 <= k < ii ==> t[k] == s0[k]);
        assert(forall|k: int| ii <= k < t.len() ==> t[k] == s0[k + 1]);

        lemma_sum_bonded_remove(s0, ii);

        assert forall|ab: Seq<u8>| #[trigger] contains_addr(t, ab) == (contains_addr(s0, ab)
            && ab != addr_b(e)) by {
            if contains_addr(t, ab) {
                let k = choose|k: int| 0 <= k < t.len() && #[trigger] addr_b(t[k]) == ab;
                if k < ii {
                    assert(addr_b(s0[k]) == ab);
                } else {
                    assert(addr_b(s0[k + 1]) == ab);
                }
                assert(contains_addr(s0, ab));
                assert(ab != addr_b(e));
            }
            if contains_addr(s0, ab) && ab != addr_b(e) {
                let k = choose|k: int| 0 <= k < s0.len() && #[trigger] addr_b(s0[k]) == ab;
                if k < ii {
                    assert(addr_b(t[k]) == ab);
                } else {
                    assert(addr_b(t[k - 1]) == ab);
                }
                assert(contains_addr(t, ab));
            }
        }

        assert forall|ab: Seq<u8>| #[trigger] contains_addr(s0, ab) && ab != addr_b(e)
            implies entry_at(t, ab) == entry_at(s0, ab) by {
            let k = idx_of(s0, ab);
            assert(0 <= k < s0.len() && addr_b(s0[k]) == ab);
            lemma_entry_at_is(s0, k);
            if k < ii {
                lemma_entry_at_is(t, k);
            } else {
                lemma_entry_at_is(t, k - 1);
            }
        }
    }
    e
}

/// Replace the bonded amount of the entry at a known index, repositioning
/// it in the ordering in the same step.
pub fn registry_update_bonded(v: &mut Vec<ValidatorEntry>, i: usize, new_bonded: u128)
    requires
        registry_sorted(old(v)@),
        registry_unique(old(v)@),
        i < old(v)@.len(),
    ensures
        registry_sorted(final(v)@),
        registry_unique(final(v)@),
        final(v)@.len() == old(v)@.len(),
        sum_bonded(final(v)@) == sum_bonded(old(v)@) - old(v)@[i as int].info.bonded
            + new_bonded,
        forall|ab: Seq<u8>|
            #[trigger] contains_addr(final(v)@, ab) == contains_addr(old(v)@, ab),
        ({
            let ne = entry_at(final(v)@, addr_b(old(v)@[i as int]));
            let oe = old(v)@[i as int];
            &&& ne.address == oe.address
            &&& ne.info.bond_denom == oe.info.bond_denom
            &&& ne.info.unbonding_period == oe.info.unbonding_period
            &&& ne.info.claimed == oe.info.claimed
            &&& ne.info.bonded == new_bonded
        }),
        forall|ab: Seq<u8>|
            #[trigger] contains_addr(old(v)@, ab) && ab != addr_b(old(v)@[i as int])
                ==> entry_at(final(v)@, ab) == entry_at(old(v)@, ab),
{
    let ghost s0 = v@;
    let mut e = registry_remove(v, i);
    let ghost s1 = v@;
    proof {
        lemma_entry_at_is(s0, i as int);
    }
    e.info.bonded = new_bonded;
    proof {
        assert(addr_b(e) == addr_b(s0[i as int]));
        assert(!contains_addr(v@, addr_b(e)));
    }
    registry_insert(v, e);
    proof {
        assert forall|ab: Seq<u8>|
            #[trigger] contains_addr(s0, ab) && ab != addr_b(s0[i as int]) implies entry_at(
            v@,
            ab,
        ) == entry_at(s0, ab) by {
            assert(contains_addr(s1, ab));
            assert(entry_at(s1, ab) == entry_at(s0, ab));
            assert(entry_at(v@, ab) == entry_at(s1, ab));
        }
    }
}

} // verus!
