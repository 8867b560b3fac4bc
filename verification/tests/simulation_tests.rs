use smart_road::controller::{ProgressFacts, SpeedLevel, StopBand};
use smart_road::geometry::{movement_id, Route, MOVEMENT_COUNT};
use smart_road::simulation::{lane_load_peaks, LaneSample, Sim};
use smart_road::stats::ProximitySample;
use smart_road::vehicle::VehicleVisual;

fn no_conflicts() -> Vec<Vec<bool>> {
    vec![vec![false; MOVEMENT_COUNT]; MOVEMENT_COUNT]
}

fn offers(open: &[usize]) -> Vec<Option<u32>> {
    (0..MOVEMENT_COUNT).map(|m| if open.contains(&m) { Some(m as u32) } else { None }).collect()
}

fn new_sim() -> Sim<&'static str, u32> {
    Sim::new("paths", &no_conflicts())
}

/// One lane sample per vehicle on the road, in order, all before the
/// conflict area with the given slowness.
fn loads_of(sim: &Sim<&'static str, u32>, slow: &[bool]) -> Vec<LaneSample> {
    sim.vehicles
        .iter()
        .zip(slow.iter())
        .map(|(v, &s)| LaneSample { movement: v.movement_id(), before_conflict: true, slow: s })
        .collect()
}

#[test]
fn new_simulation_is_empty() {
    let sim = new_sim();
    assert_eq!(sim.paths, "paths");
    assert!(sim.vehicles.is_empty());
    assert_eq!(sim.tick(), 0);
    assert_eq!(sim.next_vehicle_id, 1);
    assert_eq!(sim.stats.spawned, 0);
}

#[test]
fn auto_spawn_fires_every_forty_ticks() {
    let mut sim = new_sim();
    assert!(!sim.auto_spawn_due());
    for _ in 0..39 {
        sim.begin_step();
        assert!(!sim.auto_spawn_due());
    }
    sim.begin_step();
    assert_eq!(sim.tick(), 40);
    assert!(sim.auto_spawn_due());
    sim.begin_step();
    assert!(!sim.auto_spawn_due());
}

#[test]
fn spawn_from_an_unknown_origin_is_ignored() {
    let mut sim = new_sim();
    assert!(!sim.spawn_from(4, offers(&[0, 1, 2]), &vec![]));
    assert_eq!(sim.stats.rejected_spawns, 0);
    assert!(sim.vehicles.is_empty());
}

#[test]
fn spawn_from_takes_an_offered_route_of_that_origin() {
    let mut sim = new_sim();
    let open = [movement_id(2, Route::Left), movement_id(3, Route::Right)];
    assert!(sim.spawn_from(2, offers(&open), &vec![]));
    assert_eq!(sim.vehicles.len(), 1);
    let vehicle = &sim.vehicles[0];
    assert_eq!(vehicle.id, 1);
    assert_eq!(vehicle.origin, 2);
    assert_eq!(vehicle.route, Route::Left);
    assert_eq!(vehicle.visual, VehicleVisual::Sedan);
    assert_eq!(vehicle.motion, open[0] as u32);
    assert_eq!(sim.next_vehicle_id, 2);
    assert_eq!(sim.stats.spawned, 1);
    assert_eq!(sim.stats.peak_vehicles, 1);
    assert_eq!(sim.stats.peak_approach_vehicles, 1);
    assert_eq!(sim.stats.peak_lane_queue, 0);
}

#[test]
fn spawn_from_counts_a_rejection_when_every_route_is_blocked() {
    let mut sim = new_sim();
    assert!(!sim.spawn_from(1, offers(&[0, 6, 11]), &vec![]));
    assert_eq!(sim.stats.rejected_spawns, 1);
    assert_eq!(sim.stats.spawned, 0);
    assert_eq!(sim.next_vehicle_id, 1);
}

#[test]
fn spawn_from_uses_each_route_of_the_origin() {
    let mut seen = [false; 3];
    for _ in 0..200 {
        let mut sim = new_sim();
        assert!(sim.spawn_from(0, offers(&[0, 1, 2]), &vec![]));
        seen[sim.vehicles[0].route.index()] = true;
    }
    assert!(seen.iter().all(|&s| s));
}

#[test]
fn spawn_random_takes_an_offered_movement() {
    let mut sim = new_sim();
    assert!(sim.spawn_random(offers(&[7]), &vec![]));
    assert_eq!(sim.vehicles[0].origin, 2);
    assert_eq!(sim.vehicles[0].route, Route::Straight);
    let loads = loads_of(&sim, &[false]);
    assert!(!sim.spawn_random(offers(&[]), &loads));
    assert_eq!(sim.stats.rejected_spawns, 1);
    assert_eq!(sim.stats.spawned, 1);
}

#[test]
fn spawn_peaks_include_the_vehicles_already_on_the_road() {
    let mut sim = new_sim();
    for _ in 0..3 {
        let loads = loads_of(&sim, &[true, true]);
        assert!(sim.spawn_random(offers(&[4]), &loads));
    }
    // Two queued vehicles of movement 4 and the third one just spawned.
    assert_eq!(sim.stats.peak_lane_queue, 2);
    assert_eq!(sim.stats.peak_approach_vehicles, 3);
    assert_eq!(sim.stats.peak_vehicles, 3);
}

#[test]
fn lane_load_peaks_take_the_busiest_lane() {
    let loads = vec![
        LaneSample { movement: 0, before_conflict: true, slow: true },
        LaneSample { movement: 0, before_conflict: true, slow: false },
        LaneSample { movement: 5, before_conflict: true, slow: true },
        LaneSample { movement: 5, before_conflict: true, slow: true },
        LaneSample { movement: 5, before_conflict: false, slow: true },
        LaneSample { movement: 11, before_conflict: true, slow: false },
    ];
    assert_eq!(lane_load_peaks(&loads), (2, 2));
    assert_eq!(lane_load_peaks(&vec![]), (0, 0));
}

#[test]
fn detection_starts_the_waiting_count() {
    let mut sim = new_sim();
    assert!(sim.spawn_random(offers(&[0]), &vec![]));
    let loads = loads_of(&sim, &[false]);
    assert!(sim.spawn_random(offers(&[3]), &loads));
    sim.begin_step();
    sim.begin_step();
    sim.vehicles[0].wait_ticks = 9;
    sim.detect_vehicles(&vec![true, false]);
    assert_eq!(sim.vehicles[0].detected_tick, Some(2));
    assert_eq!(sim.vehicles[0].wait_ticks, 0);
    assert_eq!(sim.vehicles[1].detected_tick, None);
    sim.begin_step();
    sim.detect_vehicles(&vec![true, true]);
    assert_eq!(sim.vehicles[0].detected_tick, Some(2));
    assert_eq!(sim.vehicles[1].detected_tick, Some(3));
}

#[test]
fn reservations_and_target_speed_through_the_simulation() {
    let mut sim = new_sim();
    assert!(sim.spawn_random(offers(&[1]), &vec![]));
    sim.begin_step();
    sim.detect_vehicles(&vec![true]);
    assert_eq!(sim.target_speed(0, false, StopBand::AtStop), SpeedLevel::Stop);
    let facts = vec![ProgressFacts { rank: 0, past_conflict_exit: false, at_request_point: true }];
    sim.update_reservations(&facts);
    assert!(sim.vehicles[0].reserved);
    assert_eq!(sim.target_speed(0, false, StopBand::AtStop), SpeedLevel::Cruise);
}

#[test]
fn step_bookkeeping_updates_the_counters() {
    let mut sim = new_sim();
    assert!(sim.spawn_random(offers(&[2]), &vec![]));
    let loads = loads_of(&sim, &[true]);
    assert!(sim.spawn_random(offers(&[9]), &loads));
    sim.count_emergency_clamps(2);
    sim.count_emergency_clamps(u32::MAX);
    assert_eq!(sim.stats.emergency_clamps, u32::MAX);
    let proximity = vec![ProximitySample { first_id: 1, second_id: 2, colliding: false, close: true }];
    let loads = loads_of(&sim, &[true, true]);
    assert_eq!(loads[0].movement, 2);
    assert_eq!(loads[1].movement, 9);
    sim.observe_step(&proximity, &loads);
    assert_eq!(sim.stats.close_calls, 1);
    assert_eq!(sim.stats.peak_lane_queue, 1);
    assert_eq!(sim.stats.peak_vehicles, 2);
}

#[test]
fn completed_vehicles_leave_the_road_in_order() {
    let mut sim = new_sim();
    for m in [5, 6, 7, 8] {
        let loads = loads_of(&sim, &[false, false, false]);
        assert!(sim.spawn_random(offers(&[m]), &loads));
    }
    let removed = sim.remove_completed(&vec![true, false, true, false]);
    let removed_ids: Vec<u64> = removed.iter().map(|v| v.id).collect();
    let kept_ids: Vec<u64> = sim.vehicles.iter().map(|v| v.id).collect();
    assert_eq!(removed_ids, vec![1, 3]);
    assert_eq!(kept_ids, vec![2, 4]);
    assert_eq!(sim.stats.passed, 2);
    assert!(sim.remove_completed(&vec![false, false]).is_empty());
    assert_eq!(sim.stats.passed, 2);
}

#[test]
fn spawn_first_follows_the_given_order() {
    let mut sim = new_sim();
    assert!(sim.spawn_first(&vec![3, 9, 5], offers(&[5, 9]), &vec![]));
    assert_eq!(sim.vehicles[0].origin, 3);
    assert_eq!(sim.vehicles[0].route, Route::Right);
    assert_eq!(sim.vehicles[0].motion, 9);
    let loads = loads_of(&sim, &[false]);
    assert!(!sim.spawn_first(&vec![0, 1], offers(&[5]), &loads));
    assert_eq!(sim.stats.rejected_spawns, 1);
}

#[test]
fn observing_every_pair_counts_each_episode_once() {
    let mut sim = new_sim();
    for m in [0, 4, 8] {
        let loads = loads_of(&sim, &[false, false]);
        assert!(sim.spawn_random(offers(&[m]), &loads));
    }
    let sample = |a: u64, b: u64, colliding: bool, close: bool| ProximitySample { first_id: a, second_id: b, colliding, close };
    let proximity = vec![sample(1, 2, true, true), sample(1, 3, false, false), sample(2, 3, false, true)];
    let loads = loads_of(&sim, &[false, false, false]);
    sim.observe_step(&proximity, &loads);
    assert_eq!(sim.stats.collisions, 1);
    assert_eq!(sim.stats.close_calls, 1);
    // The same episodes seen again are not counted again.
    sim.observe_step(&proximity, &loads);
    assert_eq!(sim.stats.collisions, 1);
    assert_eq!(sim.stats.close_calls, 1);
    assert_eq!(sim.stats.peak_approach_vehicles, 1);
}
