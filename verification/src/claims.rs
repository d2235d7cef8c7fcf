//! The claim ledger: per-depositor time-locked releases. Entries are only
//! appended by unbonding and removed by a matured release; they are never
//! merged or edited in place.

use vstd::prelude::*;

use crate::msg::Claim;
use crate::order::{str_bytes, str_bytes_eq};
use crate::state::{sum_claims, PendingClaim};
use crate::time::{spec_is_expired, BlockInfo, Expiration};

verus! {

/// Whether a release scan that has already paid `acc` takes this claim:
/// it belongs to the owner, has matured, and fits under the optional cap.
pub open spec fn releasable(
    c: PendingClaim,
    ob: Seq<u8>,
    b: BlockInfo,
    cap: Option<u128>,
    acc: int,
) -> bool {
    &&& str_bytes(c.owner@) == ob
    &&& spec_is_expired(c.release_at, b)
    &&& match cap {
        Option::Some(l) => acc + c.amount <= l,
        Option::None => true,
    }
}

/// The total amount a release scan pays out.
pub open spec fn release_sum(
    s: Seq<PendingClaim>,
    ob: Seq<u8>,
    b: BlockInfo,
    cap: Option<u128>,
    acc: int,
) -> int
    decreases s.len(),
{
    if s.len() == 0 {
        0
    } else if releasable(s[0], ob, b, cap, acc) {
        s[0].amount + release_sum(s.drop_first(), ob, b, cap, acc + s[0].amount)
    } else {
        release_sum(s.drop_first(), ob, b, cap, acc)
    }
}

/// The claims a release scan leaves in the ledger, in ledger order.
pub open spec fn release_kept(
    s: Seq<PendingClaim>,
    ob: Seq<u8>,
    b: BlockInfo,
    cap: Option<u128>,
    acc: int,
) -> Seq<PendingClaim>
    decreases s.len(),
{
    if s.len() == 0 {
        Seq::empty()
    } else if releasable(s[0], ob, b, cap, acc) {
        release_kept(s.drop_first(), ob, b, cap, acc + s[0].amount)
    } else {
        seq![s[0]] + release_kept(s.drop_first(), ob, b, cap, acc)
    }
}

/// The depositor's claims, in ledger order.
pub open spec fn spec_claims_of(s: Seq<PendingClaim>, ob: Seq<u8>) -> Seq<Claim>
    decreases s.len(),
{
    if s.len() == 0 {
        Seq::empty()
    } else if str_bytes(s[0].owner@) == ob {
        seq![(Claim { amount: s[0].amount, release_at: s[0].release_at })] + spec_claims_of(
            s.drop_first(),
            ob,
        )
    } else {
        spec_claims_of(s.drop_first(), ob)
    }
}

/// A release pays out at least nothing and at most the whole ledger.
pub proof fn lemma_release_sum_bounds(
    s: Seq<PendingClaim>,
    ob: Seq<u8>,
    b: BlockInfo,
    cap: Option<u128>,
    acc: int,
)
    ensures
        0 <= release_sum(s, ob, b, cap, acc),
        release_sum(s, ob, b, cap, acc) <= sum_claims(s),
    decreases s.len(),
{
    if s.len() > 0 {
        if releasable(s[0], ob, b, cap, acc) {
            lemma_release_sum_bounds(s.drop_first(), ob, b, cap, acc + s[0].amount);
        } else {
            lemma_release_sum_bounds(s.drop_first(), ob, b, cap, acc);
        }
    }
}

/// What is kept plus what is paid out is exactly what was there.
pub proof fn lemma_release_partition(
    s: Seq<PendingClaim>,
    ob: Seq<u8>,
    b: BlockInfo,
    cap: Option<u128>,
    acc: int,
)
    ensures
        sum_claims(release_kept(s, ob, b, cap, acc)) == sum_claims(s) - release_sum(
            s,
            ob,
            b,
            cap,
            acc,
        ),
    decreases s.len(),
{
    if s.len() > 0 {
        if releasable(s[0], ob, b, cap, acc) {
            lemma_release_partition(s.drop_first(), ob, b, cap, acc + s[0].amount);
        } else {
            lemma_release_partition(s.drop_first(), ob, b, cap, acc);
            let t = seq![s[0]] + release_kept(s.drop_first(), ob, b, cap, acc);
            assert(t[0] == s[0]);
            assert(t.drop_first() =~= release_kept(s.drop_first(), ob, b, cap, acc));
        }
    }
}

/// A release keeps only claims that were in the ledger, so positivity of
/// the stored amounts survives it.
pub proof fn lemma_release_kept_positive(
    s: Seq<PendingClaim>,
    ob: Seq<u8>,
    b: BlockInfo,
    cap: Option<u128>,
    acc: int,
)
    requires
        forall|i: int| 0 <= i < s.len() ==> #[trigger] s[i].amount > 0,
    ensures
        forall|i: int|
            0 <= i < release_kept(s, ob, b, cap, acc).len() ==> #[trigger] release_kept(
                s,
                ob,
                b,
                cap,
                acc,
            )[i].amount > 0,
    decreases s.len(),
{
    if s.len() > 0 {
        assert(forall|i: int|
            0 <= i < s.drop_first().len() ==> #[trigger] s.drop_first()[i].amount > 0);
        if releasable(s[0], ob, b, cap, acc) {
            lemma_release_kept_positive(s.drop_first(), ob, b, cap, acc + s[0].amount);
        } else {
            lemma_release_kept_positive(s.drop_first(), ob, b, cap, acc);
            let t = seq![s[0]] + release_kept(s.drop_first(), ob, b, cap, acc);
            assert(t[0] == s[0]);
            assert(forall|i: int|
                1 <= i < t.len() ==> t[i] == release_kept(s.drop_first(), ob, b, cap, acc)[i
                    - 1]);
        }
    }
}

/// Append one release owed to a depositor.
pub fn create_claim(
    claims: &mut Vec<PendingClaim>,
    owner: String,
    amount: u128,
    release_at: Expiration,
)
    ensures
        final(claims)@ == old(claims)@.push(
            (PendingClaim { owner, amount, release_at }),
        ),
{
    claims.push(PendingClaim { owner, amount, release_at });
}

/// The amount a release would pay out now, without changing the ledger.
pub fn released_amount(
    claims: &Vec<PendingClaim>,
    owner: &str,
    block: &BlockInfo,
    cap: Option<u128>,
) -> (r: u128)
    requires
        sum_claims(claims@) <= u128::MAX,
    ensures
        r == release_sum(claims@, str_bytes(owner@), *block, cap, 0),
{
    let ghost s = claims@;
    let ghost ob = str_bytes(owner@);
    proof {
        lemma_release_sum_bounds(s, ob, *block, cap, 0);
        assert(s.skip(0) =~= s);
    }
    let mut to_send: u128 = 0;
    let mut i: usize = 0;
    while i < claims.len()
        invariant
            sum_claims(s) <= u128::MAX,
            s == claims@,
            ob == str_bytes(owner@),
            0 <= i <= s.len(),
            release_sum(s, ob, *block, cap, 0) == to_send + release_sum(
                s.skip(i as int),
                ob,
                *block,
                cap,
                to_send as int,
            ),
            release_sum(s, ob, *block, cap, 0) <= u128::MAX,
        decreases s.len() - i,
    {
        let ghost rest = s.skip(i as int);
        proof {
            assert(rest[0] == s[i as int]);
            assert(rest.drop_first() =~= s.skip(i as int + 1));
            lemma_release_sum_bounds(s.skip(i as int + 1), ob, *block, cap, to_send as int);
            lemma_release_sum_bounds(
                s.skip(i as int + 1),
                ob,
                *block,
                cap,
                to_send + s[i as int].amount,
            );
        }
        let c = &claims[i];
        let take = take_now(c, owner, block, cap, to_send);
        if take {
            to_send = to_send + c.amount;
        }
        i += 1;
    }
    proof {
        assert(s.skip(s.len() as int).len() == 0);
    }
    to_send
}

/// Whether the scan takes this claim now, having paid `paid` already.
fn take_now(
    c: &PendingClaim,
    owner: &str,
    block: &BlockInfo,
    cap: Option<u128>,
    paid: u128,
) -> (r: bool)
    ensures
        r == releasable(*c, str_bytes(owner@), *block, cap, paid as int),
{
    if !str_bytes_eq(c.owner.as_str(), owner) {
        return false;
    }
    if !c.release_at.is_expired(block) {
        return false;
    }
    match cap {
        Option::Some(l) => {
            if paid <= l {
                c.amount <= l - paid
            } else {
                false
            }
        },
        Option::None => true,
    }
}

/// Release the depositor's matured claims: remove them from the ledger
/// and return the amount they add up to.
pub fn claim_tokens(
    claims: &mut Vec<PendingClaim>,
    owner: &str,
    block: &BlockInfo,
    cap: Option<u128>,
) -> (to_send: u128)
    requires
        sum_claims(old(claims)@) <= u128::MAX,
    ensures
        to_send == release_sum(old(claims)@, str_bytes(owner@), *block, cap, 0),
        final(claims)@ == release_kept(old(claims)@, str_bytes(owner@), *block, cap, 0),
{
    let ghost s = claims@;
    let ghost ob = str_bytes(owner@);
    proof {
        lemma_release_sum_bounds(s, ob, *block, cap, 0);
        assert(s.skip(0) =~= s);
        assert(Seq::<PendingClaim>::empty() + release_kept(s, ob, *block, cap, 0)
            =~= release_kept(s, ob, *block, cap, 0));
    }
    let mut kept: Vec<PendingClaim> = Vec::new();
    let mut to_send: u128 = 0;
    while claims.len() > 0
        invariant
            sum_claims(s) <= u128::MAX,
            ob == str_bytes(owner@),
            release_sum(s, ob, *block, cap, 0) == to_send + release_sum(
                claims@,
                ob,
                *block,
                cap,
                to_send as int,
            ),
            release_kept(s, ob, *block, cap, 0) == kept@ + release_kept(
                claims@,
                ob,
                *block,
                cap,
                to_send as int,
            ),
            release_sum(s, ob, *block, cap, 0) <= u128::MAX,
        decreases claims@.len(),
    {
        let ghost rest = claims@;
        proof {
            lemma_release_sum_bounds(rest.drop_first(), ob, *block, cap, to_send as int);
            lemma_release_sum_bounds(
                rest.drop_first(),
                ob,
                *block,
                cap,
                to_send + rest[0].amount,
            );
        }
        let c = claims.remove(0);
        proof {
            assert(claims@ =~= rest.drop_first());
        }
        let take = take_now(&c, owner, block, cap, to_send);
        if take {
            to_send = to_send + c.amount;
        } else {
            let ghost k0 = kept@;
            kept.push(c);
            proof {
                assert(kept@ =~= k0.push(c));
                assert(k0 + (seq![c] + release_kept(claims@, ob, *block, cap, to_send as int))
                    =~= kept@ + release_kept(claims@, ob, *block, cap, to_send as int));
            }
        }
    }
    *claims = kept;
    to_send
}

/// The depositor's pending claims, for a read-only query.
pub fn claims_of(claims: &Vec<PendingClaim>, owner: &str) -> (r: Vec<Claim>)
    ensures
        r@ == spec_claims_of(claims@, str_bytes(owner@)),
{
    let ghost s = claims@;
    let ghost ob = str_bytes(owner@);
    proof {
        assert(s.skip(0) =~= s);
        assert(Seq::<Claim>::empty() + spec_claims_of(s, ob) =~= spec_claims_of(s, ob));
    }
    let mut r: Vec<Claim> = Vec::new();
    let mut i: usize = 0;
    while i < claims.len()
        invariant
            s == claims@,
            ob == str_bytes(owner@),
            0 <= i <= s.len(),
            spec_claims_of(s, ob) == r@ + spec_claims_of(s.skip(i as int), ob),
        decreases s.len() - i,
    {
        let ghost rest = s.skip(i as int);
        proof {
            assert(rest[0] == s[i as int]);
            assert(rest.drop_first() =~= s.skip(i as int + 1));
        }
        let c = &claims[i];
        if str_bytes_eq(c.owner.as_str(), owner) {
            let ghost r0 = r@;
            let item = Claim { amount: c.amount, release_at: c.release_at };
            r.push(item);
            proof {
                assert(r0 + (seq![item] + spec_claims_of(s.skip(i as int + 1), ob)) =~= r@
                    + spec_claims_of(s.skip(i as int + 1), ob));
            }
        }
        i += 1;
    }
    proof {
        assert(s.skip(s.len() as int).len() == 0);
        assert(r@ + spec_claims_of(s.skip(s.len() as int), ob) =~= r@);
    }
    r
}

} // verus!
