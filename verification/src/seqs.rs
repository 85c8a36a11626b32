//! Facts about sequences used across the library.
use vstd::prelude::*;

verus! {

/// The position of the first element of `s` equal to `x`, or -1.
pub open spec fn first_index<A>(s: Seq<A>, x: A) -> int
    decreases s.len(),
{
    if s.len() == 0 {
        -1
    } else if s[0] == x {
        0
    } else {
        let r = first_index(s.drop_first(), x);
        if r < 0 {
            -1
        } else {
            r + 1
        }
    }
}

/// `first_index` finds the first equal element, and -1 exactly when none is equal.
pub proof fn lemma_first_index<A>(s: Seq<A>, x: A)
    ensures
        -1 <= first_index(s, x) < s.len(),
        first_index(s, x) >= 0 ==> s[first_index(s, x)] == x,
        forall|j: int| 0 <= j < first_index(s, x) ==> s[j] != x,
        first_index(s, x) < 0 ==> forall|j: int| 0 <= j < s.len() ==> s[j] != x,
    decreases s.len(),
{
    if s.len() > 0 && s[0] != x {
        lemma_first_index(s.drop_first(), x);
        assert forall|j: int| 0 <= j < first_index(s, x) implies s[j] != x by {
            if j > 0 {
                assert(s[j] == s.drop_first()[j - 1]);
            }
        }
        if first_index(s, x) < 0 {
            assert forall|j: int| 0 <= j < s.len() implies s[j] != x by {
                if j > 0 {
                    assert(s[j] == s.drop_first()[j - 1]);
                }
            }
        }
    }
}

/// An index that is the first equal one is what `first_index` gives.
pub proof fn lemma_first_index_is<A>(s: Seq<A>, x: A, i: int)
    requires
        -1 <= i < s.len(),
        forall|j: int| 0 <= j < i ==> s[j] != x,
        i >= 0 ==> s[i] == x,
        i < 0 ==> forall|j: int| 0 <= j < s.len() ==> s[j] != x,
    ensures
        first_index(s, x) == i,
{
    lemma_first_index(s, x);
    let f = first_index(s, x);
    if f >= 0 && i >= 0 {
        if f < i {
            assert(s[f] != x);
        } else if i < f {
            assert(s[i] != x);
        }
    } else if f >= 0 {
        assert(s[f] != x);
    } else if i >= 0 {
        assert(s[i] != x);
    }
}

/// Pushing an element keeps the first positions of the others, and gives a
/// position to the pushed element where it did not occur.
pub proof fn lemma_first_index_push<A>(s: Seq<A>, x: A, y: A)
    ensures
        first_index(s.push(x), y) == if first_index(s, y) >= 0 {
            first_index(s, y)
        } else if x == y {
            s.len() as int
        } else {
            -1
        },
{
    lemma_first_index(s, y);
    let t = s.push(x);
    let f = first_index(s, y);
    if f >= 0 {
        assert(t[f] == s[f]);
        assert forall|j: int| 0 <= j < f implies t[j] != y by {
            assert(t[j] == s[j]);
        }
        lemma_first_index_is(t, y, f);
    } else if x == y {
        assert forall|j: int| 0 <= j < s.len() implies t[j] != y by {
            assert(t[j] == s[j]);
        }
        lemma_first_index_is(t, y, s.len() as int);
    } else {
        assert forall|j: int| 0 <= j < t.len() implies t[j] != y by {
            if j < s.len() {
                assert(t[j] == s[j]);
            }
        }
        lemma_first_index_is(t, y, -1);
    }
}

} // verus!
