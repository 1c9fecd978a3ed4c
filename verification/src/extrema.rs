//! The least and the greatest element of a slice.

use vstd::prelude::*;

verus! {

/// References to the greatest and to the least element of one slice.
pub struct Extrema<'elt> {
    pub greatest: &'elt i32,
    pub least: &'elt i32,
}

/// `v` occurs in `s` and no element of `s` is below it.
pub open spec fn is_least(s: Seq<i32>, v: i32) -> bool {
    &&& s.contains(v)
    &&& forall|i: int| 0 <= i < s.len() ==> v <= #[trigger] s[i]
}

/// `v` occurs in `s` and no element of `s` is above it.
pub open spec fn is_greatest(s: Seq<i32>, v: i32) -> bool {
    &&& s.contains(v)
    &&& forall|i: int| 0 <= i < s.len() ==> #[trigger] s[i] <= v
}

/// Finds the least and the greatest element of a slice that is not empty,
/// in one pass from its first element to its last.
pub fn find_extrema<'s>(slice: &'s [i32]) -> (e: Extrema<'s>)
    requires
        slice@.len() > 0,
    ensures
        is_least(slice@, *e.least),
        is_greatest(slice@, *e.greatest),
{
    let mut greatest = &slice[0];
    let mut least = &slice[0];
    proof {
        assert(slice@.take(1)[0] == slice@[0]);
    }
    for i in 1..slice.len()
        invariant
            is_least(slice@.take(i as int), *least),
            is_greatest(slice@.take(i as int), *greatest),
    {
        proof {
            let seen = slice@.take(i as int);
            let next = slice@.take(i + 1);
            let at_least = choose|k: int| 0 <= k < seen.len() && seen[k] == *least;
            let at_greatest = choose|k: int| 0 <= k < seen.len() && seen[k] == *greatest;
            assert(next[at_least] == *least);
            assert(next[at_greatest] == *greatest);
            assert(next[i as int] == slice@[i as int]);
        }
        if slice[i] < *least {
            least = &slice[i];
        }
        if slice[i] > *greatest {
            greatest = &slice[i];
        }
    }
    proof {
        assert(slice@.take(slice@.len() as int) =~= slice@);
    }
    Extrema { greatest, least }
}

} // verus!
