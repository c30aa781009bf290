//! The strain peaks a strain skill keeps: one peak per section, sorted from
//! the highest value down, and never more than a fixed total section length.
//!
//! A peak's value is an order key (see [`crate::total_order`]), so comparing
//! values here is comparing the strains they stand for. Section lengths are
//! whole milliseconds.

use vstd::prelude::*;
use crate::osu::difficulty::skills::sorting::{
    SortKey,
    sorted_desc,
    is_insertion_point,
    sorted_insert,
    insertion_point,
    insertion_point_exists,
    sorted_insert_properties,
};

verus! {

/// The largest section length, and the largest storage bound, that a
/// [`StrainPeaks`] accepts; two of them add up without overflow.
pub const MAX_LENGTH: i64 = 0x3FFF_FFFF_FFFF_FFFF;

/// The peak strain of one section and the section's length.
#[derive(Clone, Copy, Debug)]
pub struct StrainPeak {
    pub value: i64,
    pub section_length: i64,
}

impl SortKey for StrainPeak {
    open spec fn sort_key(&self) -> i64 {
        self.value
    }

    fn key(&self) -> (k: i64) {
        self.value
    }
}

impl StrainPeak {
    /// A peak of `value` over a section of `section_length`.
    pub fn new(value: i64, section_length: i64) -> (p: Self)
        ensures
            p.value == value,
            p.section_length == section_length,
    {
        StrainPeak { value, section_length }
    }
}

/// No peak has a negative section length.
pub open spec fn lengths_nonneg(s: Seq<StrainPeak>) -> bool {
    forall|i: int| 0 <= i < s.len() ==> 0 <= #[trigger] s[i].section_length
}

/// The total section length of `s`.
pub open spec fn sum_lengths(s: Seq<StrainPeak>) -> int
    decreases s.len(),
{
    if s.len() == 0 {
        0
    } else {
        sum_lengths(s.drop_last()) + s.last().section_length
    }
}

/// How many peaks of `s` remain once peaks are dropped from the end while
/// the total section length exceeds `cap`.
pub open spec fn kept_len(s: Seq<StrainPeak>, cap: int) -> nat
    decreases s.len(),
{
    if s.len() == 0 || sum_lengths(s) <= cap {
        s.len()
    } else {
        kept_len(s.drop_last(), cap)
    }
}

/// `s` with peaks dropped from the end while its total section length exceeds `cap`.
pub open spec fn trim(s: Seq<StrainPeak>, cap: int) -> Seq<StrainPeak> {
    s.take(kept_len(s, cap) as int)
}

/// The total section length of `s` with `p` inserted anywhere is that of `s`
/// plus the length of `p`.
pub proof fn sum_lengths_insert(s: Seq<StrainPeak>, i: int, p: StrainPeak)
    requires
        0 <= i <= s.len(),
    ensures
        sum_lengths(s.insert(i, p)) == sum_lengths(s) + p.section_length,
    decreases s.len(),
{
    if i == s.len() {
        assert(s.insert(i, p).drop_last() =~= s);
    } else {
        assert(s.insert(i, p).drop_last() =~= s.drop_last().insert(i, p));
        sum_lengths_insert(s.drop_last(), i, p);
    }
}

/// Total section lengths of peaks without negative lengths are not negative.
pub proof fn sum_lengths_nonneg(s: Seq<StrainPeak>)
    requires
        lengths_nonneg(s),
    ensures
        sum_lengths(s) >= 0,
    decreases s.len(),
{
    if s.len() > 0 {
        sum_lengths_nonneg(s.drop_last());
    }
}

/// Inserting a peak at its insertion point adds its length to the total, and
/// keeps lengths non-negative.
pub proof fn sorted_insert_lengths(s: Seq<StrainPeak>, p: StrainPeak, i: int)
    requires
        sorted_desc(s),
        is_insertion_point(s, p.value, i),
    ensures
        sorted_insert(s, p) == s.insert(i, p),
        sorted_desc(sorted_insert(s, p)),
        sorted_insert(s, p).to_multiset() == s.to_multiset().insert(p),
        sum_lengths(sorted_insert(s, p)) == sum_lengths(s) + p.section_length,
        lengths_nonneg(s) && p.section_length >= 0 ==> lengths_nonneg(sorted_insert(s, p)),
{
    sorted_insert_properties(s, p, i);
    s.insert_ensures(i, p);
    sum_lengths_insert(s, i, p);
}

/// Trimming keeps a prefix, within the bound whenever the bound is not negative.
pub proof fn trim_properties(s: Seq<StrainPeak>, cap: int)
    requires
        cap >= 0,
    ensures
        kept_len(s, cap) <= s.len(),
        trim(s, cap) == s.take(kept_len(s, cap) as int),
        sum_lengths(trim(s, cap)) <= cap,
        kept_len(trim(s, cap), cap) == kept_len(s, cap),
    decreases s.len(),
{
    if s.len() == 0 {
        assert(s.take(0) =~= s);
    } else if sum_lengths(s) <= cap {
        assert(s.take(s.len() as int) =~= s);
    } else {
        trim_properties(s.drop_last(), cap);
        assert(s.drop_last().take(kept_len(s, cap) as int) =~= s.take(kept_len(s, cap) as int));
    }
}

/// The peaks a strain skill keeps, with their total section length and the
/// bound on it.
#[derive(Debug)]
pub struct StrainPeaks {
    peaks: Vec<StrainPeak>,
    total_length: i64,
    max_total_length: i64,
    finalised: bool,
}

impl StrainPeaks {
    #[verifier::type_invariant]
    spec fn valid(self) -> bool {
        &&& 0 <= self.max_total_length <= MAX_LENGTH
        &&& sorted_desc(self.peaks@)
        &&& lengths_nonneg(self.peaks@)
        &&& self.total_length == sum_lengths(self.peaks@)
        &&& self.total_length <= self.max_total_length
    }

    /// The peaks, from the highest value down.
    pub closed spec fn spec_peaks(self) -> Seq<StrainPeak> {
        self.peaks@
    }

    /// The bound on the total section length.
    pub closed spec fn spec_max_total_length(self) -> int {
        self.max_total_length as int
    }

    /// Whether the last section has been saved.
    pub closed spec fn spec_finalised(self) -> bool {
        self.finalised
    }

    /// No peaks yet; the total section length of the peaks kept will never
    /// exceed `max_total_length`.
    pub fn new(max_total_length: i64) -> (r: Self)
        requires
            0 <= max_total_length <= MAX_LENGTH,
        ensures
            r.spec_peaks() == Seq::<StrainPeak>::empty(),
            r.spec_max_total_length() == max_total_length,
            !r.spec_finalised(),
    {
        StrainPeaks { peaks: Vec::new(), total_length: 0, max_total_length, finalised: false }
    }

    /// Saves the peak of a section: the peak goes in after every peak of at
    /// least its value, then the lowest peaks are dropped while the total
    /// section length exceeds the bound.
    pub fn save_current_peak(&mut self, value: i64, section_length: i64)
        requires
            0 <= section_length <= MAX_LENGTH,
        ensures
            final(self).spec_peaks() == trim(
                sorted_insert(old(self).spec_peaks(), StrainPeak { value, section_length }),
                old(self).spec_max_total_length(),
            ),
            final(self).spec_max_total_length() == old(self).spec_max_total_length(),
            final(self).spec_finalised() == old(self).spec_finalised(),
            section_length <= old(self).spec_max_total_length() ==> final(self).spec_peaks().len() > 0,
    {
        proof {
            use_type_invariant(&*self);
        }
        let mut taken = StrainPeaks::new(self.max_total_length);
        std::mem::swap(self, &mut taken);
        proof {
            use_type_invariant(&taken);
        }
        let StrainPeaks { peaks: mut peaks, total_length: mut total, max_total_length: cap, finalised } = taken;
        let peak = StrainPeak::new(value, section_length);
        let idx = insertion_point(&peaks, value);
        let ghost before = peaks@;
        proof {
            if section_length <= cap {
                saving_keeps_a_peak(before, peak, cap as int);
            }
            sorted_insert_lengths(before, peak, idx as int);
        }
        peaks.insert(idx, peak);
        let ghost inserted = peaks@;
        total = total + section_length;
        while total > cap
            invariant
                0 <= cap <= MAX_LENGTH,
                inserted == sorted_insert(before, peak),
                sorted_desc(inserted),
                lengths_nonneg(inserted),
                peaks@.len() <= inserted.len(),
                peaks@ == inserted.take(peaks@.len() as int),
                total == sum_lengths(peaks@),
                kept_len(peaks@, cap as int) == kept_len(inserted, cap as int),
            decreases peaks@.len(),
        {
            let ghost cur = peaks@;
            if peaks.len() == 0 {
                assert(sum_lengths(cur) == 0);
                assert(false);
            }
            let last = peaks.pop().unwrap();
            proof {
                assert(peaks@ =~= cur.drop_last());
                assert(inserted.take(peaks@.len() as int) =~= cur.drop_last());
            }
            total = total - last.section_length;
        }
        proof {
            assert(inserted.take(kept_len(inserted, cap as int) as int) =~= peaks@);
            assert forall|i: int, j: int| 0 <= i < j < peaks@.len() implies #[trigger] peaks@[i].sort_key()
                >= #[trigger] peaks@[j].sort_key() by {
                assert(peaks@[i] == inserted[i] && peaks@[j] == inserted[j]);
            }
            assert forall|i: int| 0 <= i < peaks@.len() implies 0 <= #[trigger] peaks@[i].section_length by {
                assert(peaks@[i] == inserted[i]);
            }
        }
        *self = StrainPeaks { peaks, total_length: total, max_total_length: cap, finalised };
    }

    /// The peaks, from the highest value down.
    pub fn peaks(&self) -> (r: &[StrainPeak])
        ensures
            r@ == self.spec_peaks(),
            sorted_desc(r@),
            lengths_nonneg(r@),
            sum_lengths(r@) <= self.spec_max_total_length(),
    {
        proof {
            use_type_invariant(self);
        }
        self.peaks.as_slice()
    }

    /// The total section length of the peaks.
    pub fn total_length(&self) -> (r: i64)
        ensures
            r == sum_lengths(self.spec_peaks()),
            0 <= r <= self.spec_max_total_length(),
    {
        proof {
            use_type_invariant(self);
            sum_lengths_nonneg(self.peaks@);
        }
        self.total_length
    }

    /// Whether the last section has been saved.
    pub fn is_finalised(&self) -> (r: bool)
        ensures
            r == self.spec_finalised(),
    {
        self.finalised
    }

    /// Saves the last section, whose peak is `current_peak` and whose length is
    /// `section_length`, unless it has been saved already, and returns the
    /// peaks. A second call changes nothing.
    pub fn get_current_strain_peaks(&mut self, current_peak: i64, section_length: i64) -> (r: &[StrainPeak])
        requires
            0 <= section_length <= MAX_LENGTH,
        ensures
            old(self).spec_finalised() ==> final(self).spec_peaks() == old(self).spec_peaks(),
            !old(self).spec_finalised() ==> final(self).spec_peaks() == trim(
                sorted_insert(old(self).spec_peaks(), StrainPeak { value: current_peak, section_length }),
                old(self).spec_max_total_length(),
            ),
            final(self).spec_finalised(),
            final(self).spec_max_total_length() == old(self).spec_max_total_length(),
            !old(self).spec_finalised() && section_length <= old(self).spec_max_total_length()
                ==> final(self).spec_peaks().len() > 0,
            r@ == final(self).spec_peaks(),
    {
        if !self.finalised {
            self.save_current_peak(current_peak, section_length);
            proof {
                use_type_invariant(&*self);
            }
            self.finalised = true;
        }
        self.peaks.as_slice()
    }

    /// Saves the last section as [`Self::get_current_strain_peaks`] does and
    /// returns the values of the peaks, from the highest down.
    pub fn into_current_strain_peaks(self, current_peak: i64, section_length: i64) -> (r: Vec<i64>)
        requires
            0 <= section_length <= MAX_LENGTH,
        ensures
            r@ == peak_values(
                if self.spec_finalised() {
                    self.spec_peaks()
                } else {
                    trim(
                        sorted_insert(self.spec_peaks(), StrainPeak { value: current_peak, section_length }),
                        self.spec_max_total_length(),
                    )
                },
            ),
            ({
                let kept = if self.spec_finalised() {
                    self.spec_peaks()
                } else {
                    trim(
                        sorted_insert(self.spec_peaks(), StrainPeak { value: current_peak, section_length }),
                        self.spec_max_total_length(),
                    )
                };
                &&& r@.len() == kept.len()
                &&& forall|i: int| 0 <= i < kept.len() ==> #[trigger] r@[i] == kept[i].value
            }),
    {
        let mut this = self;
        let peaks = this.get_current_strain_peaks(current_peak, section_length);
        let mut values: Vec<i64> = Vec::new();
        let n = peaks.len();
        for i in 0..n
            invariant
                n == peaks@.len(),
                values@ == peak_values(peaks@.take(i as int)),
        {
            proof {
                assert(peaks@.take(i as int + 1).drop_last() =~= peaks@.take(i as int));
            }
            values.push(peaks[i].value);
        }
        proof {
            assert(peaks@.take(n as int) =~= peaks@);
            peak_values_one_for_one(peaks@);
        }
        values
    }
}

/// The values of `s`, in order.
pub open spec fn peak_values(s: Seq<StrainPeak>) -> Seq<i64>
    decreases s.len(),
{
    if s.len() == 0 {
        Seq::empty()
    } else {
        peak_values(s.drop_last()).push(s.last().value)
    }
}

/// A copy of the peaks.
fn copy_peaks(s: &Vec<StrainPeak>) -> (r: Vec<StrainPeak>)
    ensures
        r@ == s@,
{
    let mut r: Vec<StrainPeak> = Vec::new();
    let n = s.len();
    for i in 0..n
        invariant
            n == s@.len(),
            r@ == s@.take(i as int),
    {
        proof {
            assert(s@.take(i + 1) =~= s@.take(i as int).push(s@[i as int]));
        }
        r.push(s[i]);
    }
    proof {
        assert(s@.take(n as int) =~= s@);
    }
    r
}

impl Clone for StrainPeaks {
    /// A copy of the peaks, their bound, and whether the last section was saved.
    fn clone(&self) -> (r: Self)
        ensures
            r.spec_peaks() == self.spec_peaks(),
            r.spec_max_total_length() == self.spec_max_total_length(),
            r.spec_finalised() == self.spec_finalised(),
    {
        proof {
            use_type_invariant(self);
        }
        StrainPeaks {
            peaks: copy_peaks(&self.peaks),
            total_length: self.total_length,
            max_total_length: self.max_total_length,
            finalised: self.finalised,
        }
    }
}

/// The values of peaks match the peaks one for one, in order: one value per
/// peak, equal peaks included.
pub proof fn peak_values_one_for_one(s: Seq<StrainPeak>)
    ensures
        peak_values(s).len() == s.len(),
        forall|i: int| 0 <= i < s.len() ==> #[trigger] peak_values(s)[i] == s[i].value,
    decreases s.len(),
{
    if s.len() > 0 {
        peak_values_one_for_one(s.drop_last());
    }
}

/// No single length of non-negative lengths exceeds their total.
pub proof fn length_within_sum(s: Seq<StrainPeak>, k: int)
    requires
        lengths_nonneg(s),
        0 <= k < s.len(),
    ensures
        s[k].section_length <= sum_lengths(s),
    decreases s.len(),
{
    if k == s.len() - 1 {
        sum_lengths_nonneg(s.drop_last());
    } else {
        length_within_sum(s.drop_last(), k);
    }
}

/// Trimming keeps the first peak whenever that peak alone is within the bound.
pub proof fn trim_keeps_first(s: Seq<StrainPeak>, cap: int)
    requires
        lengths_nonneg(s),
        s.len() > 0,
        s[0].section_length <= cap,
    ensures
        kept_len(s, cap) >= 1,
    decreases s.len(),
{
    if sum_lengths(s) <= cap {
    } else if s.len() == 1 {
        assert(sum_lengths(s) == sum_lengths(s.drop_last()) + s[0].section_length);
    } else {
        trim_keeps_first(s.drop_last(), cap);
    }
}

/// Saving a peak whose section fits the bound into peaks within the bound
/// leaves at least one peak.
pub proof fn saving_keeps_a_peak(s: Seq<StrainPeak>, p: StrainPeak, cap: int)
    requires
        sorted_desc(s),
        lengths_nonneg(s),
        sum_lengths(s) <= cap,
        0 <= p.section_length <= cap,
    ensures
        trim(sorted_insert(s, p), cap).len() > 0,
{
    let i = insertion_point_exists(s, p.value);
    sorted_insert_lengths(s, p, i);
    let t = sorted_insert(s, p);
    s.insert_ensures(i, p);
    if i > 0 {
        length_within_sum(s, 0);
        assert(t[0] == s[0]);
    } else {
        assert(t[0] == p);
    }
    trim_keeps_first(t, cap);
    trim_properties(t, cap);
}

/// What saving a peak into sorted peaks bounded by `cap` does: the result is
/// sorted, within the bound, holds only peaks that were there or the new one,
/// every peak dropped is at most as high as every peak kept, and, when the new
/// peak's section fits the bound and the peaks were within it, at least one
/// peak remains.
pub proof fn saving_drops_only_the_lowest(s: Seq<StrainPeak>, p: StrainPeak, cap: int)
    requires
        sorted_desc(s),
        cap >= 0,
    ensures
        sorted_desc(trim(sorted_insert(s, p), cap)),
        sum_lengths(trim(sorted_insert(s, p), cap)) <= cap,
        sorted_insert(s, p).to_multiset() == s.to_multiset().insert(p),
        trim(sorted_insert(s, p), cap) == sorted_insert(s, p).take(kept_len(sorted_insert(s, p), cap) as int),
        forall|i: int, j: int|
            0 <= i < kept_len(sorted_insert(s, p), cap) <= j < sorted_insert(s, p).len() ==>
                #[trigger] sorted_insert(s, p)[i].value >= #[trigger] sorted_insert(s, p)[j].value,
        lengths_nonneg(s) && sum_lengths(s) <= cap && 0 <= p.section_length <= cap ==> trim(
            sorted_insert(s, p),
            cap,
        ).len() > 0,
{
    if lengths_nonneg(s) && sum_lengths(s) <= cap && 0 <= p.section_length <= cap {
        saving_keeps_a_peak(s, p, cap);
    }
    let i = insertion_point_exists(s, p.value);
    sorted_insert_lengths(s, p, i);
    let t = sorted_insert(s, p);
    trim_properties(t, cap);
    let k = trim(t, cap);
    assert forall|a: int, b: int| 0 <= a < b < k.len() implies #[trigger] k[a].sort_key()
        >= #[trigger] k[b].sort_key() by {
        assert(k[a] == t[a] && k[b] == t[b]);
    }
    assert forall|a: int, b: int|
        0 <= a < kept_len(t, cap) <= b < t.len() implies #[trigger] t[a].value
        >= #[trigger] t[b].value by {
        assert(t[a].sort_key() >= t[b].sort_key());
    }
}

} // verus!
