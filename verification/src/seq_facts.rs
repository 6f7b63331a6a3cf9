//! Small general facts about sequence membership used by the registry and
//! the ledger: how `contains` behaves under `push` and `remove`, and how
//! element-wise uniqueness is preserved.

use vstd::prelude::*;

verus! {

/// A sequence holds no element twice.
pub open spec fn unique<A>(s: Seq<A>) -> bool {
    forall|i: int, j: int| 0 <= i < s.len() && 0 <= j < s.len() && i != j ==> s[i] != s[j]
}

/// Membership in `s.push(e)` is membership in `s` or equality with `e`.
pub proof fn lemma_push_contains<A>(s: Seq<A>, e: A)
    ensures
        forall|p: A| #[trigger] s.push(e).contains(p) <==> (s.contains(p) || p == e),
{
    assert forall|p: A| #[trigger] s.push(e).contains(p) implies (s.contains(p) || p == e) by {
        let i = choose|i: int| 0 <= i < s.push(e).len() && s.push(e)[i] == p;
        if i < s.len() {
            assert(s[i] == p);
        }
    }
    assert forall|p: A| (s.contains(p) || p == e) implies #[trigger] s.push(e).contains(p) by {
        if s.contains(p) {
            let i = choose|i: int| 0 <= i < s.len() && s[i] == p;
            assert(s.push(e)[i] == p);
        } else {
            assert(s.push(e)[s.len() as int] == p);
        }
    }
}

/// Pushing an element not yet present keeps a sequence element-wise unique.
pub proof fn lemma_push_unique<A>(s: Seq<A>, e: A)
    requires
        unique(s),
        !s.contains(e),
    ensures
        unique(s.push(e)),
{
    assert forall|i: int, j: int|
        0 <= i < s.push(e).len() && 0 <= j < s.push(e).len() && i != j implies s.push(e)[i]
        != s.push(e)[j] by {
        if i < s.len() && j < s.len() {
        } else if i < s.len() {
            assert(s[i] == s.push(e)[i]);
            assert(!s.contains(s[i]) ==> false);
        } else if j < s.len() {
            assert(s[j] == s.push(e)[j]);
        }
    }
}

/// Removing position `i` from a unique sequence removes exactly the element
/// `s[i]` from the membership relation, and keeps the rest.
pub proof fn lemma_remove_contains<A>(s: Seq<A>, i: int)
    requires
        unique(s),
        0 <= i < s.len(),
    ensures
        unique(s.remove(i)),
        forall|p: A| #[trigger] s.remove(i).contains(p) <==> (s.contains(p) && p != s[i]),
{
    let t = s.remove(i);
    assert forall|p: A| #[trigger] t.contains(p) implies (s.contains(p) && p != s[i]) by {
        let k = choose|k: int| 0 <= k < t.len() && t[k] == p;
        if k < i {
            assert(s[k] == p);
        } else {
            assert(s[k + 1] == p);
        }
    }
    assert forall|p: A| (s.contains(p) && p != s[i]) implies #[trigger] t.contains(p) by {
        let k = choose|k: int| 0 <= k < s.len() && s[k] == p;
        if k < i {
            assert(t[k] == p);
        } else {
            assert(t[k - 1] == p);
        }
    }
    assert forall|a: int, b: int| 0 <= a < t.len() && 0 <= b < t.len() && a != b implies t[a]
        != t[b] by {
        let sa: int = if a < i {
            a
        } else {
            a + 1
        };
        let sb: int = if b < i {
            b
        } else {
            b + 1
        };
        assert(t[a] == s[sa]);
        assert(t[b] == s[sb]);
    }
}

} // verus!
