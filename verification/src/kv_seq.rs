//! Facts about sequences of key-value pairs used by the token contract:
//! lookup by key from the most recent entry, uniqueness of keys, and the
//! sum of the stored values.

use vstd::prelude::*;

verus! {

/// The value stored under `key`, scanning from the most recent entry.
pub open spec fn lookup<K, V>(s: Seq<(K, V)>, key: K) -> Option<V>
    decreases s.len(),
{
    if s.len() == 0 {
        None
    } else if s.last().0 == key {
        Some(s.last().1)
    } else {
        lookup(s.drop_last(), key)
    }
}

/// No two entries hold the same key.
pub open spec fn unique_keys<K, V>(s: Seq<(K, V)>) -> bool {
    forall|i: int, j: int| 0 <= i < s.len() && 0 <= j < s.len() && i != j ==> s[i].0 != s[j].0
}

/// The sum of all stored values.
pub open spec fn sum_values<K>(s: Seq<(K, u128)>) -> int
    decreases s.len(),
{
    if s.len() == 0 {
        0int
    } else {
        sum_values(s.drop_last()) + s.last().1
    }
}

/// Under unique keys, lookup of the key at position `i` finds that entry.
pub proof fn lemma_lookup_found<K, V>(s: Seq<(K, V)>, i: int)
    requires
        unique_keys(s),
        0 <= i < s.len(),
    ensures
        lookup(s, s[i].0) == Some(s[i].1),
    decreases s.len(),
{
    if i == s.len() - 1 {
        assert(s.last() == s[i]);
    } else {
        assert(s.last().0 != s[i].0);
        assert(s.drop_last()[i] == s[i]);
        lemma_lookup_found(s.drop_last(), i);
    }
}

/// Lookup of a key held by no entry finds nothing.
pub proof fn lemma_lookup_absent<K, V>(s: Seq<(K, V)>, key: K)
    requires
        forall|i: int| 0 <= i < s.len() ==> s[i].0 != key,
    ensures
        lookup(s, key) is None,
    decreases s.len(),
{
    if s.len() > 0 {
        lemma_lookup_absent(s.drop_last(), key);
    }
}

/// Replacing the entry at position `i`, key kept, changes lookup for that
/// key alone and keeps keys unique.
pub proof fn lemma_lookup_update<K, V>(s: Seq<(K, V)>, i: int, e: (K, V))
    requires
        unique_keys(s),
        0 <= i < s.len(),
        e.0 == s[i].0,
    ensures
        unique_keys(s.update(i, e)),
        forall|k: K|
            lookup(s.update(i, e), k) == if k == e.0 {
                Some(e.1)
            } else {
                lookup(s, k)
            },
    decreases s.len(),
{
    let t = s.update(i, e);
    if i == s.len() - 1 {
        assert(t.last() == e);
        assert(t.drop_last() =~= s.drop_last());
        assert forall|k: K|
            lookup(t, k) == (if k == e.0 {
                Some(e.1)
            } else {
                lookup(s, k)
            }) by {
            if k == e.0 {
                assert(lookup(t, k) == Some(t.last().1));
            } else {
                assert(lookup(t, k) == lookup(t.drop_last(), k));
                assert(lookup(s, k) == lookup(s.drop_last(), k));
            }
        }
    } else {
        assert(t.last() == s.last());
        assert(t.drop_last() =~= s.drop_last().update(i, e));
        assert(s.drop_last()[i] == s[i]);
        lemma_lookup_update(s.drop_last(), i, e);
        assert(s.last().0 != e.0);
        assert forall|k: K|
            lookup(t, k) == (if k == e.0 {
                Some(e.1)
            } else {
                lookup(s, k)
            }) by {
            if k == s.last().0 {
                assert(lookup(t, k) == Some(t.last().1));
                assert(lookup(s, k) == Some(s.last().1));
            } else {
                assert(lookup(t, k) == lookup(t.drop_last(), k));
                assert(lookup(s, k) == lookup(s.drop_last(), k));
                assert(lookup(t.drop_last(), k) == (if k == e.0 {
                    Some(e.1)
                } else {
                    lookup(s.drop_last(), k)
                }));
            }
        }
    }
}

/// Appending an entry with a fresh key changes lookup for that key alone
/// and keeps keys unique.
pub proof fn lemma_lookup_push<K, V>(s: Seq<(K, V)>, e: (K, V))
    requires
        forall|i: int| 0 <= i < s.len() ==> s[i].0 != e.0,
    ensures
        unique_keys(s) ==> unique_keys(s.push(e)),
        forall|k: K|
            lookup(s.push(e), k) == if k == e.0 {
                Some(e.1)
            } else {
                lookup(s, k)
            },
{
    assert(s.push(e).drop_last() =~= s);
    assert(s.push(e).last() == e);
    if unique_keys(s) {
        assert forall|i: int, j: int|
            0 <= i < s.push(e).len() && 0 <= j < s.push(e).len() && i != j implies s.push(e)[i].0
            != s.push(e)[j].0 by {
            if i < s.len() && j < s.len() {
                assert(s.push(e)[i] == s[i]);
                assert(s.push(e)[j] == s[j]);
            }
        }
    }
}

/// The sum of unsigned values is never negative.
pub proof fn lemma_sum_nonneg<K>(s: Seq<(K, u128)>)
    ensures
        sum_values(s) >= 0,
    decreases s.len(),
{
    if s.len() > 0 {
        lemma_sum_nonneg(s.drop_last());
    }
}

/// Replacing the entry at position `i` shifts the sum by the difference of
/// the values.
pub proof fn lemma_sum_update<K>(s: Seq<(K, u128)>, i: int, e: (K, u128))
    requires
        0 <= i < s.len(),
    ensures
        sum_values(s.update(i, e)) == sum_values(s) - s[i].1 + e.1,
    decreases s.len(),
{
    let t = s.update(i, e);
    if i == s.len() - 1 {
        assert(t.last() == e);
        assert(t.drop_last() =~= s.drop_last());
    } else {
        assert(t.last() == s.last());
        assert(t.drop_last() =~= s.drop_last().update(i, e));
        assert(s.drop_last()[i] == s[i]);
        lemma_sum_update(s.drop_last(), i, e);
    }
}

/// Appending an entry adds its value to the sum.
pub proof fn lemma_sum_push<K>(s: Seq<(K, u128)>, e: (K, u128))
    ensures
        sum_values(s.push(e)) == sum_values(s) + e.1,
{
    assert(s.push(e).drop_last() =~= s);
    assert(s.push(e).last() == e);
}

/// A stored value never exceeds the sum of all stored values.
pub proof fn lemma_lookup_le_sum<K>(s: Seq<(K, u128)>, key: K)
    ensures
        match lookup(s, key) {
            Some(v) => v <= sum_values(s),
            None => true,
        },
    decreases s.len(),
{
    if s.len() > 0 {
        if s.last().0 == key {
            lemma_sum_nonneg(s.drop_last());
        } else {
            lemma_lookup_le_sum(s.drop_last(), key);
        }
    }
}

} // verus!
