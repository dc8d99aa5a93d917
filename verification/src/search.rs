//! The first position of a value in a sequence.

use vstd::prelude::*;

verus! {

/// The position of the first `x` in `s`, or the length of `s` when `x` does
/// not occur.
pub open spec fn first_index<T>(s: Seq<T>, x: T) -> int
    decreases s.len(),
{
    if s.len() == 0 || s[0] == x {
        0
    } else {
        1 + first_index(s.drop_first(), x)
    }
}

/// `first_index` is the least position that holds `x`.
pub proof fn lemma_first_index<T>(s: Seq<T>, x: T)
    ensures
        0 <= first_index(s, x) <= s.len(),
        forall|j: int| 0 <= j < first_index(s, x) ==> #[trigger] s[j] != x,
        first_index(s, x) < s.len() ==> s[first_index(s, x)] == x,
    decreases s.len(),
{
    if s.len() == 0 || s[0] == x {
    } else {
        let rest = s.drop_first();
        lemma_first_index(rest, x);
        assert forall|j: int| 0 <= j < first_index(s, x) implies #[trigger] s[j] != x by {
            if j > 0 {
                assert(s[j] == rest[j - 1]);
            }
        }
    }
}

/// A position before which `x` does not occur, and which holds `x` or ends
/// the sequence, is `first_index`.
pub proof fn lemma_first_index_is<T>(s: Seq<T>, x: T, k: int)
    requires
        0 <= k <= s.len(),
        forall|j: int| 0 <= j < k ==> #[trigger] s[j] != x,
        k < s.len() ==> s[k] == x,
    ensures
        first_index(s, x) == k,
{
    lemma_first_index(s, x);
    let f = first_index(s, x);
    if f < k {
        assert(s[f] != x);
    } else if k < f {
        assert(s[k] != x);
    }
}

/// A sequence with one more value holds what it held before, and that value.
pub proof fn lemma_push_contains<T>(s: Seq<T>, a: T, x: T)
    ensures
        s.push(a).contains(x) <==> s.contains(x) || a == x,
{
    let more = s.push(a);
    if s.contains(x) {
        let i = choose|i: int| 0 <= i < s.len() && s[i] == x;
        assert(more[i] == x);
    }
    if a == x {
        assert(more[s.len() as int] == x);
    }
    if more.contains(x) {
        let i = choose|i: int| 0 <= i < more.len() && more[i] == x;
        if i < s.len() {
            assert(s[i] == x);
        }
    }
}

/// Two sequences, one after the other, hold what either holds.
pub proof fn lemma_add_contains<T>(a: Seq<T>, b: Seq<T>, x: T)
    ensures
        (a + b).contains(x) <==> a.contains(x) || b.contains(x),
{
    let both = a + b;
    if a.contains(x) {
        let i = choose|i: int| 0 <= i < a.len() && a[i] == x;
        assert(both[i] == x);
    }
    if b.contains(x) {
        let i = choose|i: int| 0 <= i < b.len() && b[i] == x;
        assert(both[a.len() + i] == x);
    }
    if both.contains(x) {
        let i = choose|i: int| 0 <= i < both.len() && both[i] == x;
        if i < a.len() {
            assert(a[i] == x);
        } else {
            assert(b[i - a.len()] == x);
        }
    }
}

} // verus!
