use rosu_pp::osu::difficulty::evaluators::rhythm::{RhythmEvaluator, RhythmIsland};
use rosu_pp::osu::difficulty::skills::aim::{StrainPeak, StrainPeaks};
use rosu_pp::osu::difficulty::skills::queued_strains::QueuedStrains;
use rosu_pp::osu::difficulty::skills::reading::calculate_reduced_note_count;
use rosu_pp::osu::difficulty::skills::sorting::{sort_desc, sort_peaks_desc};
use rosu_pp::total_order::{key_bits, order_key};

fn key(x: f64) -> i64 {
    order_key(x.to_bits())
}

fn value(k: i64) -> f64 {
    f64::from_bits(key_bits(k))
}

#[test]
fn order_key_matches_total_cmp() {
    let xs = [
        f64::NEG_INFINITY,
        -1e300,
        -2.5,
        -1.0,
        -f64::MIN_POSITIVE,
        -0.0,
        0.0,
        f64::MIN_POSITIVE,
        1.0,
        2.5,
        1e300,
        f64::INFINITY,
    ];
    for a in xs {
        for b in xs {
            assert_eq!(key(a).cmp(&key(b)), a.total_cmp(&b), "{a} vs {b}");
        }
    }
    assert_eq!(key(0.0), 0);
    assert_eq!(key(-0.0), -1);
    assert_eq!(key(1.0), 0x3FF0_0000_0000_0000);
    assert_eq!(key(-1.0), -1 - 0x3FF0_0000_0000_0000);
}

#[test]
fn order_key_round_trips() {
    for x in [0.0, -0.0, 1.5, -1.5, 123456.789, -9e-300, f64::MAX, f64::MIN] {
        assert_eq!(value(key(x)).to_bits(), x.to_bits());
    }
    assert_eq!(key_bits(-1), 0x8000_0000_0000_0000);
    assert_eq!(key_bits(i64::MIN), u64::MAX);
    assert_eq!(key_bits(i64::MAX), 0x7FFF_FFFF_FFFF_FFFF);
}

#[test]
fn rhythm_island_new_raises_small_deltas() {
    let island = RhythmIsland::new(10);
    assert_eq!(island.delta(), 25);
    assert_eq!(island.delta_count(), 1);
    assert_eq!(island.occurrences(), 1);
    assert_eq!(RhythmIsland::new(120).delta(), 120);
    assert_eq!(RhythmIsland::new(-5).delta(), 25);
}

#[test]
fn rhythm_island_default_has_no_delta() {
    let island = RhythmIsland::default();
    assert_eq!(island.delta(), i32::MAX);
    assert_eq!(island.delta_count(), 1);
    assert_eq!(island.occurrences(), 1);
}

#[test]
fn rhythm_island_add_delta() {
    let mut island = RhythmIsland::default();
    island.add_delta(7);
    assert_eq!(island.delta(), 25);
    assert_eq!(island.delta_count(), 2);
    island.add_delta(300);
    assert_eq!(island.delta(), 25);
    assert_eq!(island.delta_count(), 3);

    let mut set = RhythmIsland::new(100);
    set.add_delta(200);
    assert_eq!(set.delta(), 100);
    assert_eq!(set.delta_count(), 2);
}

#[test]
fn rhythm_island_almost_equals() {
    let a = RhythmIsland::new(100);
    let b = RhythmIsland::new(105);
    assert!(a.almost_equals(&b, 6));
    assert!(!a.almost_equals(&b, 5));
    assert!(b.almost_equals(&a, 6));
    let mut c = RhythmIsland::new(100);
    c.add_delta(100);
    assert!(!a.almost_equals(&c, 100));
    assert!(a.almost_equals(&a, 1));
    assert!(!a.almost_equals(&a, 0));
}

#[test]
fn rhythm_island_similar_polarity() {
    let mut a = RhythmIsland::new(100);
    let mut b = RhythmIsland::new(103);
    assert!(!a.is_similar_polarity(&b, 10));
    a.add_delta(0);
    b.add_delta(0);
    assert!(a.is_similar_polarity(&b, 10));
    assert!(!a.is_similar_polarity(&b, 3));
    b.add_delta(0);
    assert!(!a.is_similar_polarity(&b, 10));
    a.add_delta(0);
    assert!(a.is_similar_polarity(&b, 10));
    assert!(b.is_similar_polarity(&a, 10));
}

#[test]
fn record_island_appends_new_islands() {
    let mut list = Vec::new();
    let island = RhythmIsland::new(100);
    let previous = RhythmIsland::default();
    assert_eq!(RhythmEvaluator::record_island(&mut list, &island, &previous, 5), None);
    assert_eq!(list.len(), 1);
    let other = RhythmIsland::new(200);
    assert_eq!(RhythmEvaluator::record_island(&mut list, &other, &previous, 5), None);
    assert_eq!(list.len(), 2);
    assert_eq!(list[1].delta(), 200);
}

#[test]
fn record_island_counts_repeats() {
    let mut list = vec![RhythmIsland::new(100), RhythmIsland::new(102)];
    let island = RhythmIsland::new(101);
    // `previous` differs: the match is found but not counted again.
    let previous = RhythmIsland::new(500);
    assert_eq!(RhythmEvaluator::record_island(&mut list, &island, &previous, 5), Some(1));
    assert_eq!(list.len(), 2);
    // `previous` matches too: the first match counts one more occurrence.
    let previous = RhythmIsland::new(99);
    assert_eq!(RhythmEvaluator::record_island(&mut list, &island, &previous, 5), Some(2));
    assert_eq!(RhythmEvaluator::record_island(&mut list, &island, &previous, 5), Some(3));
    assert_eq!(list[0].occurrences(), 3);
    assert_eq!(list[1].occurrences(), 1);
}

fn values(peaks: &[StrainPeak]) -> Vec<(i64, i64)> {
    peaks.iter().map(|p| (p.value, p.section_length)).collect()
}

#[test]
fn strain_peak_new() {
    let p = StrainPeak::new(7, 400);
    assert_eq!((p.value, p.section_length), (7, 400));
}

#[test]
fn save_current_peak_keeps_order_and_bound() {
    let mut peaks = StrainPeaks::new(1000);
    peaks.save_current_peak(5, 400);
    peaks.save_current_peak(9, 300);
    peaks.save_current_peak(5, 100);
    assert_eq!(values(peaks.peaks()), vec![(9, 300), (5, 400), (5, 100)]);
    assert_eq!(peaks.total_length(), 800);
    // Over the bound: the lowest peaks go first.
    peaks.save_current_peak(7, 400);
    assert_eq!(values(peaks.peaks()), vec![(9, 300), (7, 400)]);
    assert_eq!(peaks.total_length(), 700);
}

#[test]
fn save_current_peak_can_drop_the_new_peak() {
    let mut peaks = StrainPeaks::new(500);
    peaks.save_current_peak(10, 400);
    peaks.save_current_peak(1, 200);
    assert_eq!(values(peaks.peaks()), vec![(10, 400)]);
    let mut huge = StrainPeaks::new(500);
    huge.save_current_peak(10, 600);
    assert!(huge.peaks().is_empty());
    assert_eq!(huge.total_length(), 0);
}

#[test]
fn get_current_strain_peaks_saves_once() {
    let mut peaks = StrainPeaks::new(44000);
    peaks.save_current_peak(3, 400);
    assert!(!peaks.is_finalised());
    assert_eq!(values(peaks.get_current_strain_peaks(8, 250)), vec![(8, 250), (3, 400)]);
    assert!(peaks.is_finalised());
    assert_eq!(values(peaks.get_current_strain_peaks(100, 250)), vec![(8, 250), (3, 400)]);
}

#[test]
fn into_current_strain_peaks_gives_values() {
    let mut peaks = StrainPeaks::new(44000);
    peaks.save_current_peak(3, 400);
    peaks.save_current_peak(4, 400);
    assert_eq!(peaks.into_current_strain_peaks(1, 10), vec![4, 3, 1]);
}

#[test]
fn queued_strains_push_drops_lower() {
    let mut q = QueuedStrains::new();
    assert!(q.is_empty());
    q.push(10, 1);
    q.push(5, 2);
    q.push(7, 3);
    let got: Vec<(i64, i64)> = q.as_slice().iter().map(|s| (s.value, s.time)).collect();
    assert_eq!(got, vec![(10, 1), (7, 3)]);
    q.push(7, 4);
    assert_eq!(q.as_slice().len(), 3);
    let front = q.pop_front().unwrap();
    assert_eq!((front.value, front.time), (10, 1));
    q.clear();
    assert!(q.is_empty());
    assert!(q.pop_front().is_none());
}

#[test]
fn sort_desc_sorts() {
    assert_eq!(sort_desc(&[3, -1, 7, 3, 0]), vec![7, 3, 3, 0, -1]);
    assert_eq!(sort_desc(&[]), Vec::<i64>::new());
}

#[test]
fn sort_peaks_desc_is_stable() {
    let peaks = [
        StrainPeak::new(2, 1),
        StrainPeak::new(5, 2),
        StrainPeak::new(2, 3),
        StrainPeak::new(9, 4),
        StrainPeak::new(5, 5),
    ];
    assert_eq!(values(&sort_peaks_desc(&peaks)), vec![(9, 4), (5, 2), (5, 5), (2, 1), (2, 3)]);
}

#[test]
fn sorting_float_keys_matches_total_cmp() {
    let xs = [0.5, 3.25, -1.0, 0.0, 12.0, 3.25];
    let keys: Vec<i64> = xs.iter().map(|&x| key(x)).collect();
    let sorted: Vec<f64> = sort_desc(&keys).into_iter().map(value).collect();
    let mut expected = xs.to_vec();
    expected.sort_by(|a, b| b.total_cmp(a));
    assert_eq!(sorted, expected);
}

#[test]
fn reduced_note_count_stops_at_cutoff() {
    assert_eq!(calculate_reduced_note_count(&[0, 10, 20, 30], 20), 3);
    assert_eq!(calculate_reduced_note_count(&[0, 10, 50, 30], 20), 2);
    assert_eq!(calculate_reduced_note_count(&[], 20), 0);
    let times = [1000.0, 30000.0, 61000.0, 61001.0];
    let keys: Vec<i64> = times.iter().map(|&t| key(t)).collect();
    assert_eq!(calculate_reduced_note_count(&keys, key(1000.0 + 60000.0)), 3);
}

#[test]
fn finalised_peaks_are_never_empty_when_the_section_fits() {
    let mut peaks = StrainPeaks::new(44000);
    peaks.save_current_peak(50, 30000);
    peaks.save_current_peak(60, 14000);
    // The last section is the lowest and does not fit beside the others, but
    // the highest peaks stay.
    let first: Vec<(i64, i64)> = values(peaks.get_current_strain_peaks(1, 400));
    assert_eq!(first, vec![(60, 14000), (50, 30000)]);
    let second: Vec<(i64, i64)> = values(peaks.get_current_strain_peaks(1, 400));
    assert_eq!(first, second);

    let mut empty = StrainPeaks::new(44000);
    assert_eq!(values(empty.get_current_strain_peaks(0, 44000)), vec![(0, 44000)]);
}

#[test]
fn rhythm_state_new_islands_seen_once() {
    let state = rosu_pp::osu::difficulty::evaluators::rhythm::RhythmState::new(10);
    assert_eq!(state.island().occurrences(), 1);
}
