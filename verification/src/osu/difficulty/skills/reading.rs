//! The integer part of the reading skill.

use vstd::prelude::*;

verus! {

/// How many of the first objects count as the start of the map: the objects
/// from the first on whose start time is at most `cutoff`, stopping at the
/// first one past it. Start times and the cutoff are order keys.
pub fn calculate_reduced_note_count(start_times: &[i64], cutoff: i64) -> (r: usize)
    ensures
        r <= start_times@.len(),
        forall|k: int| 0 <= k < r ==> #[trigger] start_times@[k] <= cutoff,
        r < start_times@.len() ==> start_times@[r as int] > cutoff,
{
    let n = start_times.len();
    let mut i: usize = 0;
    while i < n
        invariant
            n == start_times@.len(),
            i <= n,
            forall|k: int| 0 <= k < i ==> #[trigger] start_times@[k] <= cutoff,
        decreases n - i,
    {
        if start_times[i] > cutoff {
            return i;
        }
        i = i + 1;
    }
    i
}

} // verus!
