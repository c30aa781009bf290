//! Ordering from the highest key down, as the skills need it: finding where an
//! item goes among sorted items, inserting it there, and sorting by repeated
//! insertion. An item goes after every item of at least its key, so items of
//! equal key keep the order they came in.

use vstd::prelude::*;
use crate::osu::difficulty::skills::aim::StrainPeak;

verus! {

/// Something ordered by an integer key (an order key of a value, see
/// [`crate::total_order`]).
pub trait SortKey {
    /// The key.
    spec fn sort_key(&self) -> i64;

    /// The key.
    fn key(&self) -> (k: i64)
        ensures
            k == self.sort_key(),
    ;
}

impl SortKey for i64 {
    open spec fn sort_key(&self) -> i64 {
        *self
    }

    fn key(&self) -> (k: i64) {
        *self
    }
}

/// The sort key of a value is the value itself.
pub proof fn value_is_its_own_key(x: i64)
    ensures
        x.sort_key() == x,
{
}

/// The sort key of a peak is its value.
pub proof fn peak_key_is_its_value(p: StrainPeak)
    ensures
        p.sort_key() == p.value,
{
}

/// Items ordered from the highest key down.
pub open spec fn sorted_desc<T: SortKey>(s: Seq<T>) -> bool {
    forall|i: int, j: int|
        0 <= i < j < s.len() ==> #[trigger] s[i].sort_key() >= #[trigger] s[j].sort_key()
}

/// `i` is where an item of key `v` goes in `s`: after every item of key at
/// least `v`, before every smaller one.
pub open spec fn is_insertion_point<T: SortKey>(s: Seq<T>, v: i64, i: int) -> bool {
    &&& 0 <= i <= s.len()
    &&& forall|k: int| 0 <= k < i ==> #[trigger] s[k].sort_key() >= v
    &&& forall|k: int| i <= k < s.len() ==> #[trigger] s[k].sort_key() < v
}

/// `s` with `p` inserted at its insertion point.
pub open spec fn sorted_insert<T: SortKey>(s: Seq<T>, p: T) -> Seq<T> {
    s.insert(choose|i: int| is_insertion_point(s, p.sort_key(), i), p)
}

/// `s` sorted by inserting its items one after another at their insertion points.
pub open spec fn insertion_sorted<T: SortKey>(s: Seq<T>) -> Seq<T>
    decreases s.len(),
{
    if s.len() == 0 {
        Seq::empty()
    } else {
        sorted_insert(insertion_sorted(s.drop_last()), s.last())
    }
}

/// A sequence has at most one insertion point for a key.
pub proof fn insertion_point_unique<T: SortKey>(s: Seq<T>, v: i64, i: int, j: int)
    requires
        is_insertion_point(s, v, i),
        is_insertion_point(s, v, j),
    ensures
        i == j,
{
    if i < j {
        assert(s[i].sort_key() >= v);
    } else if j < i {
        assert(s[j].sort_key() >= v);
    }
}

/// Sorted items have an insertion point for every key.
pub proof fn insertion_point_exists<T: SortKey>(s: Seq<T>, v: i64) -> (i: int)
    requires
        sorted_desc(s),
    ensures
        is_insertion_point(s, v, i),
    decreases s.len(),
{
    if s.len() == 0 {
        0
    } else if s.last().sort_key() >= v {
        assert forall|k: int| 0 <= k < s.len() implies #[trigger] s[k].sort_key() >= v by {
            if k < s.len() - 1 {
                assert(s[k].sort_key() >= s[s.len() - 1].sort_key());
            }
        }
        s.len() as int
    } else {
        let j = insertion_point_exists(s.drop_last(), v);
        assert forall|k: int| j <= k < s.len() implies #[trigger] s[k].sort_key() < v by {
            if k < s.len() - 1 {
                assert(s[k] == s.drop_last()[k]);
            }
        }
        assert forall|k: int| 0 <= k < j implies #[trigger] s[k].sort_key() >= v by {
            assert(s[k] == s.drop_last()[k]);
        }
        j
    }
}

/// The insertion point of a key in sorted items, found by binary search.
pub fn insertion_point<T: SortKey>(s: &Vec<T>, v: i64) -> (i: usize)
    requires
        sorted_desc(s@),
    ensures
        is_insertion_point(s@, v, i as int),
{
    let mut lo: usize = 0;
    let mut hi: usize = s.len();
    while lo < hi
        invariant
            0 <= lo <= hi <= s@.len(),
            sorted_desc(s@),
            forall|k: int| 0 <= k < lo ==> #[trigger] s@[k].sort_key() >= v,
            forall|k: int| hi <= k < s@.len() ==> #[trigger] s@[k].sort_key() < v,
        decreases hi - lo,
    {
        let mid = lo + (hi - lo) / 2;
        if s[mid].key() >= v {
            assert forall|k: int| 0 <= k <= mid implies #[trigger] s@[k].sort_key() >= v by {
                if k < mid {
                    assert(s@[k].sort_key() >= s@[mid as int].sort_key());
                }
            }
            lo = mid + 1;
        } else {
            assert forall|k: int| mid <= k < s@.len() implies #[trigger] s@[k].sort_key() < v by {
                if k > mid {
                    assert(s@[mid as int].sort_key() >= s@[k].sort_key());
                }
            }
            hi = mid;
        }
    }
    lo
}

/// Inserting an item at its insertion point keeps items sorted and adds the
/// item to what they hold.
pub proof fn sorted_insert_properties<T: SortKey>(s: Seq<T>, p: T, i: int)
    requires
        sorted_desc(s),
        is_insertion_point(s, p.sort_key(), i),
    ensures
        sorted_insert(s, p) == s.insert(i, p),
        sorted_desc(sorted_insert(s, p)),
        sorted_insert(s, p).to_multiset() == s.to_multiset().insert(p),
{
    let c = choose|j: int| is_insertion_point(s, p.sort_key(), j);
    insertion_point_unique(s, p.sort_key(), i, c);
    let t = s.insert(i, p);
    s.insert_ensures(i, p);
    assert forall|a: int, b: int| 0 <= a < b < t.len() implies #[trigger] t[a].sort_key()
        >= #[trigger] t[b].sort_key() by {
        if b < i {
        } else if a > i {
            assert(t[a] == s[a - 1] && t[b] == s[b - 1]);
        } else if a == i {
            assert(t[b] == s[b - 1]);
        } else if b == i {
        } else {
            assert(t[b] == s[b - 1]);
        }
    }
    assert(t.remove(i) =~= s);
    t.to_multiset_ensures();
    assert(t.contains(p)) by {
        assert(t[i] == p);
    }
    assert(s.to_multiset() =~= t.to_multiset().remove(p));
    assert(t.to_multiset() =~= s.to_multiset().insert(p));
}

/// Sorting gives the items from the highest key down, and gives exactly the
/// items it was handed.
pub proof fn insertion_sorted_properties<T: SortKey>(s: Seq<T>)
    ensures
        sorted_desc(insertion_sorted(s)),
        insertion_sorted(s).to_multiset() == s.to_multiset(),
        insertion_sorted(s).len() == s.len(),
    decreases s.len(),
{
    if s.len() == 0 {
        s.to_multiset_ensures();
        insertion_sorted(s).to_multiset_ensures();
        vstd::multiset::lemma_multiset_empty_len(s.to_multiset());
        vstd::multiset::lemma_multiset_empty_len(insertion_sorted(s).to_multiset());
    } else {
        let r = insertion_sorted(s.drop_last());
        insertion_sorted_properties(s.drop_last());
        let i = insertion_point_exists(r, s.last().sort_key());
        sorted_insert_properties(r, s.last(), i);
        s.drop_last().to_multiset_ensures();
        assert(s.drop_last().push(s.last()) =~= s);
        r.to_multiset_ensures();
        insertion_sorted(s).to_multiset_ensures();
    }
}

/// Sorts items from the highest key down; items of equal key keep their order.
pub fn sort_by_key_desc<T: SortKey + Copy>(items: &[T]) -> (r: Vec<T>)
    ensures
        r@ == insertion_sorted(items@),
        sorted_desc(r@),
        r@.to_multiset() == items@.to_multiset(),
{
    let mut res: Vec<T> = Vec::new();
    let n = items.len();
    for i in 0..n
        invariant
            n == items@.len(),
            res@ == insertion_sorted(items@.take(i as int)),
            sorted_desc(res@),
    {
        let p = items[i];
        let idx = insertion_point(&res, p.key());
        proof {
            assert(items@.take(i + 1).drop_last() =~= items@.take(i as int));
            sorted_insert_properties(res@, p, idx as int);
        }
        res.insert(idx, p);
    }
    proof {
        assert(items@.take(n as int) =~= items@);
        insertion_sorted_properties(items@);
    }
    res
}

/// Sorts peaks from the highest value down; peaks of equal value keep their order.
pub fn sort_peaks_desc(peaks: &[StrainPeak]) -> (r: Vec<StrainPeak>)
    ensures
        r@ == insertion_sorted(peaks@),
        sorted_desc(r@),
        forall|i: int, j: int| 0 <= i < j < r@.len() ==> #[trigger] r@[i].value >= #[trigger] r@[j].value,
        r@.to_multiset() == peaks@.to_multiset(),
{
    let r = sort_by_key_desc(peaks);
    assert forall|i: int, j: int| 0 <= i < j < r@.len() implies #[trigger] r@[i].value
        >= #[trigger] r@[j].value by {
        assert(r@[i].sort_key() >= r@[j].sort_key());
    }
    r
}

/// Sorts keys from the highest down.
pub fn sort_desc(values: &[i64]) -> (r: Vec<i64>)
    ensures
        r@ == insertion_sorted(values@),
        sorted_desc(r@),
        forall|i: int, j: int| 0 <= i < j < r@.len() ==> #[trigger] r@[i] >= #[trigger] r@[j],
        r@.to_multiset() == values@.to_multiset(),
        r@.len() == values@.len(),
{
    proof {
        insertion_sorted_properties(values@);
    }
    let r = sort_by_key_desc(values);
    assert forall|i: int, j: int| 0 <= i < j < r@.len() implies #[trigger] r@[i] >= #[trigger] r@[j] by {
        assert(r@[i].sort_key() >= r@[j].sort_key());
    }
    r
}

} // verus!
