use smart_road::stats::{ProximitySample, Statistics};

fn sample(first_id: u64, second_id: u64, colliding: bool, close: bool) -> ProximitySample {
    ProximitySample { first_id, second_id, colliding, close }
}

#[test]
fn new_statistics_are_zero() {
    let stats = Statistics::new();
    assert_eq!(stats.spawned, 0);
    assert_eq!(stats.passed, 0);
    assert_eq!(stats.rejected_spawns, 0);
    assert_eq!(stats.close_calls, 0);
    assert_eq!(stats.collisions, 0);
    assert_eq!(stats.emergency_clamps, 0);
    assert_eq!(stats.peak_vehicles, 0);
    assert_eq!(stats.peak_lane_queue, 0);
    assert_eq!(stats.peak_approach_vehicles, 0);
    assert!(!stats.close_pairs.contains((1, 2)));
    assert!(!stats.collision_pairs.contains((1, 2)));
}

#[test]
fn peaks_only_grow() {
    let mut stats = Statistics::new();
    stats.update_peaks(5, 2, 3);
    stats.update_peaks(4, 3, 1);
    assert_eq!(stats.peak_vehicles, 5);
    assert_eq!(stats.peak_lane_queue, 3);
    assert_eq!(stats.peak_approach_vehicles, 3);
}

#[test]
fn a_lasting_close_call_is_counted_once() {
    let mut stats = Statistics::new();
    stats.observe_proximity(&vec![sample(3, 1, false, true)]);
    stats.observe_proximity(&vec![sample(1, 3, false, true)]);
    assert_eq!(stats.close_calls, 1);
    assert!(stats.close_pairs.contains((1, 3)));
    stats.observe_proximity(&vec![sample(1, 3, false, false)]);
    assert!(!stats.close_pairs.contains((1, 3)));
    stats.observe_proximity(&vec![sample(1, 3, false, true)]);
    assert_eq!(stats.close_calls, 2);
    assert_eq!(stats.collisions, 0);
}

#[test]
fn a_collision_is_not_also_a_close_call() {
    let mut stats = Statistics::new();
    stats.observe_proximity(&vec![sample(2, 5, true, true), sample(5, 6, false, true)]);
    assert_eq!(stats.collisions, 1);
    assert_eq!(stats.close_calls, 1);
    assert!(stats.collision_pairs.contains((2, 5)));
    assert!(!stats.close_pairs.contains((2, 5)));
    assert!(stats.close_pairs.contains((5, 6)));
    stats.observe_proximity(&vec![sample(5, 2, true, true)]);
    assert_eq!(stats.collisions, 1);
    assert!(!stats.close_pairs.contains((5, 6)));
}

#[test]
fn completions_are_counted() {
    let mut stats = Statistics::new();
    stats.record_completion();
    stats.record_completion();
    assert_eq!(stats.passed, 2);
}

#[test]
fn pair_set_remembers_inserted_pairs() {
    let mut stats = Statistics::new();
    stats.close_pairs.insert((4, 9));
    stats.close_pairs.insert((4, 9));
    assert!(stats.close_pairs.contains((4, 9)));
    assert!(!stats.close_pairs.contains((9, 4)));
}
