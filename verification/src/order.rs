//! Byte-level lexicographic order on strings.
//!
//! Registry keys (validator addresses) and denominations are compared by
//! their UTF-8 bytes: equality and the strict lexicographic order below.

use vstd::prelude::*;

verus! {

/// The UTF-8 bytes of a string value; all key comparisons are over these.
pub open spec fn str_bytes(s: Seq<char>) -> Seq<u8> {
    vstd::utf8::encode_utf8(s)
}

/// Strict lexicographic order on byte sequences.
pub open spec fn lex_lt(a: Seq<u8>, b: Seq<u8>) -> bool
    decreases a.len(),
{
    if b.len() == 0 {
        false
    } else if a.len() == 0 {
        true
    } else if a[0] < b[0] {
        true
    } else if a[0] > b[0] {
        false
    } else {
        lex_lt(a.drop_first(), b.drop_first())
    }
}

/// Two strings have equal bytes exactly when they are the same character
/// sequence: UTF-8 encoding is injective.
pub proof fn lemma_str_bytes_injective(a: Seq<char>, b: Seq<char>)
    ensures
        (str_bytes(a) == str_bytes(b)) <==> (a == b),
{
    broadcast use vstd::utf8::encode_utf8_decode_utf8;

    if str_bytes(a) == str_bytes(b) {
        assert(vstd::utf8::decode_utf8(vstd::utf8::encode_utf8(a)) == a);
        assert(vstd::utf8::decode_utf8(vstd::utf8::encode_utf8(b)) == b);
    }
}

/// The lexicographic order is transitive.
pub proof fn lemma_lex_lt_trans(a: Seq<u8>, b: Seq<u8>, c: Seq<u8>)
    requires
        lex_lt(a, b),
        lex_lt(b, c),
    ensures
        lex_lt(a, c),
    decreases a.len(),
{
    if a.len() == 0 {
    } else {
        if a[0] == b[0] && b[0] == c[0] {
            lemma_lex_lt_trans(a.drop_first(), b.drop_first(), c.drop_first());
        }
    }
}

/// The lexicographic order is asymmetric, and only relates distinct sequences.
pub proof fn lemma_lex_lt_asym(a: Seq<u8>, b: Seq<u8>)
    requires
        lex_lt(a, b),
    ensures
        !lex_lt(b, a),
        a != b,
    decreases a.len(),
{
    if a.len() == 0 {
    } else if b.len() > 0 && a[0] == b[0] {
        lemma_lex_lt_asym(a.drop_first(), b.drop_first());
        assert(a != b) by {
            if a == b {
                assert(a.drop_first() == b.drop_first());
            }
        }
    }
}

/// Any two distinct byte sequences are ordered one way or the other.
pub proof fn lemma_lex_lt_connex(a: Seq<u8>, b: Seq<u8>)
    requires
        a != b,
    ensures
        lex_lt(a, b) || lex_lt(b, a),
    decreases a.len(),
{
    if a.len() == 0 {
        assert(b.len() > 0) by {
            if b.len() == 0 {
                assert(a =~= b);
            }
        }
    } else if b.len() == 0 {
    } else if a[0] == b[0] {
        assert(a.drop_first() != b.drop_first()) by {
            if a.drop_first() == b.drop_first() {
                assert(a.drop_first().len() == a.len() - 1);
                assert(b.drop_first().len() == b.len() - 1);
                assert(a.len() == b.len());
                assert forall|j: int| 0 <= j < a.len() implies a[j] == b[j] by {
                    if j > 0 {
                        assert(a[j] == a.drop_first()[j - 1]);
                        assert(b[j] == b.drop_first()[j - 1]);
                    }
                }
                assert(a =~= b);
            }
        }
        lemma_lex_lt_connex(a.drop_first(), b.drop_first());
    }
}

/// Restarting the comparison after an equal prefix does not change it.
proof fn lemma_lex_lt_skip(a: Seq<u8>, b: Seq<u8>, i: int)
    requires
        0 <= i <= a.len(),
        i <= b.len(),
        forall|j: int| 0 <= j < i ==> a[j] == b[j],
    ensures
        lex_lt(a, b) == lex_lt(a.skip(i), b.skip(i)),
    decreases i,
{
    if i == 0 {
        assert(a.skip(0) =~= a);
        assert(b.skip(0) =~= b);
    } else {
        assert(a.len() > 0 && b.len() > 0 && a[0] == b[0]);
        assert(lex_lt(a, b) == lex_lt(a.drop_first(), b.drop_first()));
        assert(a.drop_first().skip(i - 1) =~= a.skip(i));
        assert(b.drop_first().skip(i - 1) =~= b.skip(i));
        lemma_lex_lt_skip(a.drop_first(), b.drop_first(), i - 1);
    }
}

/// Whether `a` comes strictly before `b` in byte-lexicographic order.
pub fn str_lex_lt(a: &str, b: &str) -> (r: bool)
    ensures
        r == lex_lt(str_bytes(a@), str_bytes(b@)),
{
    let ab = a.as_bytes();
    let bb = b.as_bytes();
    let alen = ab.len();
    let blen = bb.len();
    let n = if alen < blen {
        alen
    } else {
        blen
    };
    let mut i: usize = 0;
    while i < n
        invariant
            n == if alen < blen {
                alen
            } else {
                blen
            },
            alen == ab@.len(),
            blen == bb@.len(),
            ab@ == str_bytes(a@),
            bb@ == str_bytes(b@),
            0 <= i <= n,
            forall|j: int| 0 <= j < i ==> ab@[j] == bb@[j],
        decreases n - i,
    {
        let x = ab[i];
        let y = bb[i];
        if x != y {
            proof {
                lemma_lex_lt_skip(ab@, bb@, i as int);
                assert(ab@.skip(i as int)[0] == x);
                assert(bb@.skip(i as int)[0] == y);
            }
            return x < y;
        }
        i += 1;
    }
    proof {
        lemma_lex_lt_skip(ab@, bb@, n as int);
        if alen < blen {
            assert(ab@.skip(n as int).len() == 0);
            assert(bb@.skip(n as int).len() > 0);
        } else {
            assert(bb@.skip(n as int).len() == 0);
        }
    }
    alen < blen
}

/// Whether `a` and `b` are equal as byte sequences (hence as strings).
pub fn str_bytes_eq(a: &str, b: &str) -> (r: bool)
    ensures
        r == (str_bytes(a@) == str_bytes(b@)),
        r == (a@ == b@),
{
    proof {
        lemma_str_bytes_injective(a@, b@);
    }
    let ab = a.as_bytes();
    let bb = b.as_bytes();
    let alen = ab.len();
    let blen = bb.len();
    if alen != blen {
        proof {
            assert(ab@ != bb@);
        }
        return false;
    }
    let mut i: usize = 0;
    while i < alen
        invariant
            alen == ab@.len(),
            alen == bb@.len(),
            ab@ == str_bytes(a@),
            bb@ == str_bytes(b@),
            0 <= i <= alen,
            forall|j: int| 0 <= j < i ==> ab@[j] == bb@[j],
        decreases alen - i,
    {
        let x = ab[i];
        let y = bb[i];
        if x != y {
            return false;
        }
        i += 1;
    }
    proof {
        assert(ab@ =~= bb@);
    }
    true
}

} // verus!
