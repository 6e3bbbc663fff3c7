//! Lexicographic ordering of public keys, the order the delta tree's
//! leaves are sorted by, with the laws the non-inclusion checkers rest on.

use vstd::prelude::*;

use crate::types::Digest;

verus! {

/// Strict lexicographic order on byte strings: a proper prefix sorts
/// before its extensions.
pub open spec fn lex_lt(a: Seq<u8>, b: Seq<u8>) -> bool
    decreases a.len(),
{
    if b.len() == 0 {
        false
    } else if a.len() == 0 {
        true
    } else if a[0] < b[0] {
        true
    } else if a[0] > b[0] {
        false
    } else {
        lex_lt(a.drop_first(), b.drop_first())
    }
}

/// Compares two keys in lexicographic order.
pub fn key_lt(a: &Digest, b: &Digest) -> (r: bool)
    ensures
        r == lex_lt(a@, b@),
{
    let mut i: usize = 0;
    let alen = a.bytes.len();
    let blen = b.bytes.len();
    assert(a@.skip(0) =~= a@);
    assert(b@.skip(0) =~= b@);
    loop
        invariant
            alen == a@.len(),
            blen == b@.len(),
            0 <= i <= alen,
            0 <= i <= blen,
            lex_lt(a@, b@) == lex_lt(a@.skip(i as int), b@.skip(i as int)),
        decreases alen - i,
    {
        if i == blen {
            assert(!lex_lt(a@.skip(i as int), b@.skip(i as int)));
            return false;
        }
        if i == alen {
            assert(lex_lt(a@.skip(i as int), b@.skip(i as int)));
            return true;
        }
        let x = a.bytes[i];
        let y = b.bytes[i];
        assert(a@.skip(i as int)[0] == a@[i as int] && b@.skip(i as int)[0] == b@[i as int]);
        if x < y {
            return true;
        }
        if x > y {
            return false;
        }
        assert(a@.skip(i as int).drop_first() =~= a@.skip(i + 1));
        assert(b@.skip(i as int).drop_first() =~= b@.skip(i + 1));
        i = i + 1;
    }
}

/// Law: lexicographic order is trichotomous; of `a < b`, `a == b` and
/// `b < a` exactly one holds.
pub proof fn lemma_lex_lt_trichotomy(a: Seq<u8>, b: Seq<u8>)
    ensures
        lex_lt(a, b) || lex_lt(b, a) || a == b,
        lex_lt(a, b) ==> !lex_lt(b, a) && a != b,
        lex_lt(b, a) ==> !lex_lt(a, b) && a != b,
    decreases a.len() + b.len(),
{
    if a.len() == 0 && b.len() == 0 {
        assert(a =~= b);
    } else if a.len() != 0 && b.len() != 0 && a[0] == b[0] {
        lemma_lex_lt_trichotomy(a.drop_first(), b.drop_first());
        if a.drop_first() == b.drop_first() {
            assert(a =~= b) by {
                assert(a.len() == b.len());
                assert(forall|i: int|
                    1 <= i < a.len() ==> a[i] == a.drop_first()[i - 1] && b[i]
                        == b.drop_first()[i - 1]);
            }
        }
        if a == b {
            assert(a.drop_first() =~= b.drop_first());
        }
    }
}

/// The ordering clause of the left-boundary checker: the queried key sorts
/// before every leaf of the sorted tree.
pub open spec fn left_boundary_applies(q: Seq<u8>, keys: Seq<Seq<u8>>) -> bool {
    lex_lt(q, keys.first())
}

/// The ordering clause of the right-boundary checker: the queried key
/// sorts after every leaf of the sorted tree.
pub open spec fn right_boundary_applies(q: Seq<u8>, keys: Seq<Seq<u8>>) -> bool {
    lex_lt(keys.last(), q)
}

/// The ordering clause of the inner checker: two neighbouring leaves
/// bracket the queried key strictly.
pub open spec fn inner_bracket_applies(q: Seq<u8>, keys: Seq<Seq<u8>>) -> bool {
    exists|i: int|
        0 <= i < keys.len() - 1 && (#[trigger] lex_lt(keys[i], q)) && lex_lt(q, keys[i + 1])
}

proof fn lemma_bracket_exists(keys: Seq<Seq<u8>>, q: Seq<u8>)
    requires
        keys.len() >= 2,
        forall|i: int, j: int| 0 <= i < j < keys.len() ==> lex_lt(#[trigger] keys[i], #[trigger] keys[j]),
        forall|i: int| 0 <= i < keys.len() ==> keys[i] != q,
        lex_lt(keys.first(), q),
        lex_lt(q, keys.last()),
    ensures
        inner_bracket_applies(q, keys),
    decreases keys.len(),
{
    let n = keys.len() as int;
    lemma_lex_lt_trichotomy(keys[n - 2], q);
    if lex_lt(keys[n - 2], q) {
        assert(0 <= n - 2 < keys.len() - 1 && lex_lt(keys[n - 2], q) && lex_lt(
            q,
            keys[n - 2 + 1],
        ));
    } else {
        assert(lex_lt(q, keys[n - 2]));
        if n == 2 {
            lemma_lex_lt_trichotomy(keys[0], q);
            assert(false);
        } else {
            let prefix = keys.take(n - 1);
            assert(prefix.first() == keys.first());
            assert(prefix.last() == keys[n - 2]);
            lemma_bracket_exists(prefix, q);
            let i = choose|i: int|
                0 <= i < prefix.len() - 1 && (#[trigger] lex_lt(prefix[i], q)) && lex_lt(
                    q,
                    prefix[i + 1],
                );
            assert(keys[i] == prefix[i] && keys[i + 1] == prefix[i + 1]);
            assert(0 <= i < keys.len() - 1 && lex_lt(keys[i], q) && lex_lt(q, keys[i + 1]));
        }
    }
}

/// Law: for a key absent from a strictly sorted, non-empty leaf sequence,
/// exactly one of the three non-inclusion ordering clauses holds — the key
/// sorts before the first leaf, after the last leaf, or strictly between
/// one neighbouring pair; the two clauses that do not apply fail.
pub proof fn lemma_noninclusion_variant_unique(keys: Seq<Seq<u8>>, q: Seq<u8>)
    requires
        keys.len() >= 1,
        forall|i: int, j: int| 0 <= i < j < keys.len() ==> lex_lt(#[trigger] keys[i], #[trigger] keys[j]),
        forall|i: int| 0 <= i < keys.len() ==> keys[i] != q,
    ensures
        left_boundary_applies(q, keys) || right_boundary_applies(q, keys) || inner_bracket_applies(
            q,
            keys,
        ),
        left_boundary_applies(q, keys) ==> !right_boundary_applies(q, keys)
            && !inner_bracket_applies(q, keys),
        right_boundary_applies(q, keys) ==> !left_boundary_applies(q, keys)
            && !inner_bracket_applies(q, keys),
        inner_bracket_applies(q, keys) ==> !left_boundary_applies(q, keys)
            && !right_boundary_applies(q, keys),
{
    let n = keys.len() as int;
    lemma_lex_lt_trichotomy(q, keys.first());
    lemma_lex_lt_trichotomy(q, keys.last());
    if left_boundary_applies(q, keys) {
        if right_boundary_applies(q, keys) {
            lemma_lex_lt_transitive(keys.last(), q, keys.first());
            if n > 1 {
                assert(lex_lt(keys[0], keys[n - 1]));
                lemma_lex_lt_trichotomy(keys.first(), keys.last());
            }
            lemma_lex_lt_trichotomy(keys.last(), keys.first());
            assert(false);
        }
        if inner_bracket_applies(q, keys) {
            let i = choose|i: int|
                0 <= i < keys.len() - 1 && (#[trigger] lex_lt(keys[i], q)) && lex_lt(
                    q,
                    keys[i + 1],
                );
            lemma_lex_lt_transitive(keys[i], q, keys.first());
            if i > 0 {
                assert(lex_lt(keys[0], keys[i]));
            }
            lemma_lex_lt_trichotomy(keys[i], keys.first());
            assert(false);
        }
    } else if right_boundary_applies(q, keys) {
        if inner_bracket_applies(q, keys) {
            let i = choose|i: int|
                0 <= i < keys.len() - 1 && (#[trigger] lex_lt(keys[i], q)) && lex_lt(
                    q,
                    keys[i + 1],
                );
            lemma_lex_lt_transitive(keys.last(), q, keys[i + 1]);
            if i + 1 < n - 1 {
                assert(lex_lt(keys[i + 1], keys[n - 1]));
            }
            lemma_lex_lt_trichotomy(keys.last(), keys[i + 1]);
            assert(false);
        }
    } else {
        assert(lex_lt(keys.first(), q));
        assert(lex_lt(q, keys.last()));
        if n == 1 {
            assert(false);
        }
        lemma_bracket_exists(keys, q);
    }
}

/// Law: lexicographic order is transitive.
pub proof fn lemma_lex_lt_transitive(a: Seq<u8>, b: Seq<u8>, c: Seq<u8>)
    requires
        lex_lt(a, b),
        lex_lt(b, c),
    ensures
        lex_lt(a, c),
    decreases a.len() + b.len() + c.len(),
{
    if a.len() != 0 && b.len() != 0 && c.len() != 0 {
        if a[0] == b[0] && b[0] == c[0] {
            lemma_lex_lt_transitive(a.drop_first(), b.drop_first(), c.drop_first());
        }
    }
}

} // verus!
