use rosu_pp::osu::difficulty::evaluators::rhythm::{RhythmOutcome, RhythmState, RhythmStep};

fn step(delta: i32, close: bool, apart: bool, slowed: bool, sped_up: bool) -> RhythmStep {
    RhythmStep { delta, close, apart, slowed, sped_up }
}

#[test]
fn rhythm_state_starts_empty() {
    let state = RhythmState::new(15);
    assert_eq!(state.island().delta(), i32::MAX);
    assert_eq!(state.island().delta_count(), 1);
    assert!(state.islands().is_empty());
}

#[test]
fn rhythm_state_joins_close_steps_before_a_change() {
    let mut state = RhythmState::new(15);
    assert_eq!(state.step(step(100, true, false, false, false)), RhythmOutcome::Continued);
    assert_eq!(state.island().delta(), 100);
    assert_eq!(state.island().delta_count(), 2);
    assert_eq!(state.step(step(104, true, false, false, false)), RhythmOutcome::Continued);
    assert_eq!(state.island().delta(), 100);
    assert_eq!(state.island().delta_count(), 3);
}

#[test]
fn rhythm_state_starts_on_slowing() {
    let mut state = RhythmState::new(15);
    assert_eq!(state.step(step(100, false, true, true, false)), RhythmOutcome::Started);
    assert_eq!(state.island().delta(), 100);
    assert_eq!(state.island().delta_count(), 1);
    // Once changing, a step that is not apart only joins the island.
    assert_eq!(state.step(step(50, true, false, false, false)), RhythmOutcome::Continued);
    assert_eq!(state.island().delta_count(), 2);
}

#[test]
fn rhythm_state_closes_and_records_islands() {
    let mut state = RhythmState::new(15);
    assert_eq!(state.step(step(200, false, true, true, false)), RhythmOutcome::Started);
    assert_eq!(state.step(step(200, true, false, false, false)), RhythmOutcome::Continued);
    // Close an island of delta 200 holding two deltas.
    assert_eq!(
        state.step(step(100, false, true, false, true)),
        RhythmOutcome::Closed {
            similar_polarity: false,
            same_count: false,
            occurrences: None,
            delta: 200,
            delta_count: 2,
        }
    );
    assert_eq!(state.islands().len(), 1);
    // `sped_up` stopped the closing: the next apart step does not close.
    assert_eq!(state.step(step(300, false, true, false, false)), RhythmOutcome::Continued);
    assert_eq!(state.step(step(300, false, true, true, false)), RhythmOutcome::Started);
    assert_eq!(state.step(step(205, true, false, false, false)), RhythmOutcome::Continued);
    // The island now has delta 300 and two deltas; a close step of another island.
    assert_eq!(
        state.step(step(10, false, true, false, false)),
        RhythmOutcome::Closed {
            similar_polarity: false,
            same_count: true,
            occurrences: None,
            delta: 300,
            delta_count: 2,
        }
    );
    assert_eq!(state.islands().len(), 2);
    assert_eq!(state.island().delta(), 25);
}

#[test]
fn rhythm_state_counts_repeated_islands() {
    let mut state = RhythmState::new(15);
    assert_eq!(state.step(step(100, false, true, true, false)), RhythmOutcome::Started);
    assert_eq!(
        state.step(step(100, false, true, false, false)),
        RhythmOutcome::Closed {
            similar_polarity: false,
            same_count: true,
            occurrences: None,
            delta: 100,
            delta_count: 1,
        }
    );
    // The same island again, right after an equal one: one more occurrence.
    assert_eq!(
        state.step(step(100, false, true, false, false)),
        RhythmOutcome::Closed {
            similar_polarity: false,
            same_count: true,
            occurrences: Some(2),
            delta: 100,
            delta_count: 1,
        }
    );
    assert_eq!(state.islands().len(), 1);
    assert_eq!(state.islands()[0].occurrences(), 2);
}

#[test]
fn rhythm_state_islands_stay_pairwise_apart() {
    let mut state = RhythmState::new(10);
    assert_eq!(state.step(step(100, false, true, true, false)), RhythmOutcome::Started);
    for d in [100, 105, 130, 100, 131, 300] {
        state.step(step(d, false, true, false, false));
    }
    let islands = state.islands();
    for (i, a) in islands.iter().enumerate() {
        for (j, b) in islands.iter().enumerate() {
            if i != j {
                assert!(!a.almost_equals(b, 10));
            }
        }
    }
    assert_eq!(islands.len(), 2);
}
