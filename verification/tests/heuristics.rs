use emergence::calibrate::calibrate_rule_count;
use emergence::explore::run_novelty_search;
use emergence::novelty::{bool_vec_diff_count, NoveltyTracker};
use emergence::world::World;

#[test]
fn calibration_on_two_symbols() {
    // symbol_count 2, one expected symbol per rule: a single rule already
    // matches almost every neighborhood, so the doubling search stops at
    // its first candidate count.
    assert_eq!(calibrate_rule_count(2, 1), 2);
}

#[test]
fn calibration_is_a_power_of_two() {
    for avg in 0..12u32 {
        let r = calibrate_rule_count(13, avg);
        assert!(r >= 2);
        assert!(r.is_power_of_two());
    }
}

#[test]
fn calibration_monotone_in_avg_symbols() {
    for sc in [2u32, 5, 13, 40] {
        let mut last = 0u64;
        for avg in 0..sc {
            let r = calibrate_rule_count(sc, avg);
            assert!(r >= last);
            last = r;
        }
    }
}

#[test]
fn hash_depends_on_contents_alone() {
    // Observing the same buffer twice adds one hash; a buffer that differs
    // in a single cell hashes differently and adds a second.
    let mut w = World::new(4, 5, 4, 5);
    let mut t = NoveltyTracker::new(10, 2, 16);
    t.observe(&w);
    t.observe(&w);
    assert_eq!(t.unique_count(), 1);
    w._set((0, 0), 1);
    t.observe(&w);
    assert_eq!(t.unique_count(), 2);
}

#[test]
fn diff_count_counts_disagreements() {
    let a = vec![true, false, true, false];
    let b = vec![false, false, true, true];
    assert_eq!(bool_vec_diff_count(&a, &b), 2);
    assert_eq!(bool_vec_diff_count(&a, &a), 0);
}

#[test]
fn tracker_collapses_equal_frames() {
    let w = World::new(4, 5, 4, 5);
    let mut t = NoveltyTracker::new(10, 2, 16);
    t.observe(&w);
    t.observe(&w);
    assert_eq!(t.unique_count(), 1);
    assert_eq!(t.frames_seen(), 2);
}

#[test]
fn search_is_reproducible_from_the_seed() {
    // Two searches built from the same seed walk the same generations and
    // report the same verdict, bit for bit.
    let run = |seed: u64| {
        let mut w = World::new(8, 5, 4, seed);
        let mut t = NoveltyTracker::new(30, 5, 64);
        run_novelty_search(&mut w, &mut t);
        (t.unique_count(), t.diff_count(), t.is_interesting(), w.data().clone())
    };
    let first = run(424242);
    let second = run(424242);
    assert_eq!(first, second);
}

#[test]
fn search_stops_at_horizon_or_quiescence() {
    let mut w = World::new(8, 5, 4, 11);
    w.randomize();
    let mut t = NoveltyTracker::new(20, 5, 64);
    run_novelty_search(&mut w, &mut t);
    assert!(t.frames_seen() == 20 || !w.any_cell_changed());
    assert!(t.unique_count() <= t.frames_seen());
}
