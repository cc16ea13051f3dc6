//! Numbers drawn from a counter: a run of draws gives numbers that are all
//! different and lie in the window between the counter's value before the
//! run and after it.
use vstd::prelude::*;

verus! {

/// The numbers are all different and lie in `[lo, hi)`.
pub open spec fn within(ids: Seq<int>, lo: int, hi: int) -> bool {
    &&& forall|k: int| 0 <= k < ids.len() ==> lo <= #[trigger] ids[k] < hi
    &&& forall|i: int, j: int| 0 <= i < j < ids.len() ==> #[trigger] ids[i] != #[trigger] ids[j]
}

/// Two windows side by side make one.
pub proof fn lemma_join(a: Seq<int>, b: Seq<int>, lo: int, mid: int, hi: int, a_low: bool)
    requires
        lo <= mid <= hi,
        a_low ==> within(a, lo, mid) && within(b, mid, hi),
        !a_low ==> within(a, mid, hi) && within(b, lo, mid),
    ensures
        within(a + b, lo, hi),
{
    let s = a + b;
    assert forall|k: int| 0 <= k < s.len() implies lo <= #[trigger] s[k] < hi by {
        if k < a.len() {
            assert(s[k] == a[k]);
        } else {
            assert(s[k] == b[k - a.len()]);
        }
    }
    assert forall|i: int, j: int| 0 <= i < j < s.len() implies #[trigger] s[i] != #[trigger] s[j] by {
        if j < a.len() {
            assert(s[i] == a[i] && s[j] == a[j]);
        } else if i >= a.len() {
            assert(s[i] == b[i - a.len()] && s[j] == b[j - a.len()]);
        } else {
            assert(s[i] == a[i] && s[j] == b[j - a.len()]);
        }
    }
}

pub proof fn lemma_within_one(x: int)
    ensures
        within(seq![x], x, x + 1),
{
}

/// A window may be widened.
pub proof fn lemma_widen(a: Seq<int>, lo: int, hi: int, lo2: int, hi2: int)
    requires
        within(a, lo, hi),
        lo2 <= lo,
        hi <= hi2,
    ensures
        within(a, lo2, hi2),
{
}

/// No number occurs twice.
pub open spec fn no_repeats(ids: Seq<int>) -> bool {
    forall|i: int, j: int| 0 <= i < j < ids.len() ==> #[trigger] ids[i] != #[trigger] ids[j]
}

} // verus!
