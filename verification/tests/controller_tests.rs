use smart_road::controller::{IntersectionManager, ProgressFacts, SpeedLevel, StopBand};
use smart_road::geometry::{movement_id, Route, MOVEMENT_COUNT};
use smart_road::vehicle::Vehicle;

fn table(conflicting: &[(usize, usize)]) -> Vec<Vec<bool>> {
    let mut rows = vec![vec![false; MOVEMENT_COUNT]; MOVEMENT_COUNT];
    for &(a, b) in conflicting {
        rows[a][b] = true;
        rows[b][a] = true;
    }
    rows
}

fn waiting(id: u64, origin: usize, route: Route, wait_ticks: u64) -> Vehicle<()> {
    let mut vehicle = Vehicle::new(id, origin, route, ());
    vehicle.detected_tick = Some(1);
    vehicle.wait_ticks = wait_ticks;
    vehicle
}

fn at_request(rank: u64) -> ProgressFacts {
    ProgressFacts { rank, past_conflict_exit: false, at_request_point: true }
}

fn approaching(rank: u64) -> ProgressFacts {
    ProgressFacts { rank, past_conflict_exit: false, at_request_point: false }
}

#[test]
fn isolated_vehicle_is_admitted_at_once() {
    let manager = IntersectionManager::new(&table(&[]));
    let mut vehicles = vec![waiting(1, 0, Route::Straight, 7)];
    manager.update(&mut vehicles, &vec![at_request(0)]);
    assert!(vehicles[0].reserved);
    assert_eq!(vehicles[0].wait_ticks, 0);
}

#[test]
fn vehicle_before_its_request_point_keeps_waiting() {
    let manager = IntersectionManager::new(&table(&[]));
    let mut vehicles = vec![waiting(1, 0, Route::Straight, 7)];
    manager.update(&mut vehicles, &vec![approaching(0)]);
    assert!(!vehicles[0].reserved);
    assert_eq!(vehicles[0].wait_ticks, 8);
}

#[test]
fn undetected_vehicle_is_left_alone() {
    let manager = IntersectionManager::new(&table(&[]));
    let mut vehicles = vec![Vehicle::new(1, 0, Route::Straight, ())];
    manager.update(&mut vehicles, &vec![at_request(0)]);
    assert!(!vehicles[0].reserved);
    assert_eq!(vehicles[0].wait_ticks, 0);
}

#[test]
fn longer_wait_wins_a_conflict() {
    let a = movement_id(0, Route::Straight);
    let b = movement_id(1, Route::Straight);
    let manager = IntersectionManager::new(&table(&[(a, b)]));
    let mut vehicles = vec![waiting(1, 0, Route::Straight, 3), waiting(2, 1, Route::Straight, 90)];
    manager.update(&mut vehicles, &vec![at_request(5), at_request(5)]);
    assert!(!vehicles[0].reserved);
    assert_eq!(vehicles[0].wait_ticks, 4);
    assert!(vehicles[1].reserved);
    assert_eq!(vehicles[1].wait_ticks, 0);
}

#[test]
fn queue_pressure_outweighs_a_short_wait() {
    let a = movement_id(0, Route::Straight);
    let b = movement_id(1, Route::Straight);
    let manager = IntersectionManager::new(&table(&[(a, b)]));
    // Movement a has two waiting vehicles (score 10 + 2 * 60), movement b one (score 50 + 60).
    let mut vehicles = vec![
        waiting(1, 0, Route::Straight, 10),
        waiting(2, 0, Route::Straight, 0),
        waiting(3, 1, Route::Straight, 50),
    ];
    manager.update(&mut vehicles, &vec![at_request(9), approaching(1), at_request(9)]);
    assert!(vehicles[0].reserved);
    assert!(!vehicles[1].reserved);
    assert!(!vehicles[2].reserved);
    assert_eq!(vehicles[2].wait_ticks, 51);
}

#[test]
fn equal_priority_goes_to_the_lower_id() {
    let a = movement_id(0, Route::Left);
    let b = movement_id(2, Route::Left);
    let manager = IntersectionManager::new(&table(&[(a, b)]));
    let mut vehicles = vec![waiting(8, 0, Route::Left, 5), waiting(4, 2, Route::Left, 5)];
    manager.update(&mut vehicles, &vec![at_request(3), at_request(3)]);
    assert!(!vehicles[0].reserved);
    assert!(vehicles[1].reserved);
}

#[test]
fn further_vehicle_wins_when_scores_tie() {
    let a = movement_id(0, Route::Left);
    let b = movement_id(2, Route::Left);
    let manager = IntersectionManager::new(&table(&[(a, b)]));
    let mut vehicles = vec![waiting(1, 0, Route::Left, 5), waiting(2, 2, Route::Left, 5)];
    manager.update(&mut vehicles, &vec![at_request(3), at_request(4)]);
    assert!(!vehicles[0].reserved);
    assert!(vehicles[1].reserved);
}

#[test]
fn non_conflicting_movements_are_admitted_together() {
    let manager = IntersectionManager::new(&table(&[(1, 4)]));
    let mut vehicles = vec![
        waiting(1, 0, Route::Right, 0),
        waiting(2, 1, Route::Right, 0),
        waiting(3, 2, Route::Right, 0),
        waiting(4, 3, Route::Right, 0),
    ];
    let facts = vec![at_request(1), at_request(2), at_request(3), at_request(4)];
    manager.update(&mut vehicles, &facts);
    assert!(vehicles.iter().all(|v| v.reserved));
}

#[test]
fn only_the_front_vehicle_of_a_movement_is_admitted() {
    let manager = IntersectionManager::new(&table(&[]));
    let mut vehicles = vec![waiting(1, 3, Route::Straight, 0), waiting(2, 3, Route::Straight, 0)];
    manager.update(&mut vehicles, &vec![at_request(2), at_request(6)]);
    assert!(!vehicles[0].reserved);
    assert_eq!(vehicles[0].wait_ticks, 1);
    assert!(vehicles[1].reserved);
}

#[test]
fn a_convoy_on_one_movement_is_not_blocked_by_itself() {
    let a = movement_id(1, Route::Straight);
    let manager = IntersectionManager::new(&table(&[(a, movement_id(2, Route::Left))]));
    let mut leader = waiting(1, 1, Route::Straight, 0);
    leader.reserved = true;
    let mut vehicles = vec![leader, waiting(2, 1, Route::Straight, 0)];
    manager.update(&mut vehicles, &vec![at_request(8), at_request(3)]);
    assert!(vehicles[0].reserved);
    assert!(vehicles[1].reserved);
}

#[test]
fn held_reservation_blocks_a_conflicting_movement() {
    let a = movement_id(0, Route::Straight);
    let b = movement_id(3, Route::Straight);
    let manager = IntersectionManager::new(&table(&[(a, b)]));
    let mut holder = waiting(1, 0, Route::Straight, 0);
    holder.reserved = true;
    let mut vehicles = vec![holder, waiting(2, 3, Route::Straight, 500)];
    manager.update(&mut vehicles, &vec![at_request(8), at_request(3)]);
    assert!(vehicles[0].reserved);
    assert!(!vehicles[1].reserved);
    assert_eq!(vehicles[1].wait_ticks, 501);
}

#[test]
fn leaving_the_conflict_area_releases_the_reservation() {
    let a = movement_id(0, Route::Straight);
    let b = movement_id(3, Route::Straight);
    let manager = IntersectionManager::new(&table(&[(a, b)]));
    let mut holder = waiting(1, 0, Route::Straight, 0);
    holder.reserved = true;
    let mut vehicles = vec![holder, waiting(2, 3, Route::Straight, 500)];
    let facts = vec![
        ProgressFacts { rank: 8, past_conflict_exit: true, at_request_point: true },
        at_request(3),
    ];
    manager.update(&mut vehicles, &facts);
    assert!(!vehicles[0].reserved);
    assert_eq!(vehicles[0].wait_ticks, 1);
    assert!(vehicles[1].reserved);
    assert_eq!(vehicles[1].wait_ticks, 0);
}

#[test]
fn a_lone_vehicle_that_has_left_is_not_reserved_again() {
    let manager = IntersectionManager::new(&table(&[]));
    let mut leaving = waiting(1, 2, Route::Left, 0);
    leaving.reserved = true;
    let mut vehicles = vec![leaving];
    let facts = vec![ProgressFacts { rank: 0, past_conflict_exit: true, at_request_point: true }];
    manager.update(&mut vehicles, &facts);
    assert!(!vehicles[0].reserved);
    manager.update(&mut vehicles, &facts);
    assert!(!vehicles[0].reserved);
}

#[test]
fn waiting_ticks_saturate() {
    let manager = IntersectionManager::new(&table(&[]));
    let mut vehicles = vec![waiting(1, 0, Route::Straight, u64::MAX)];
    manager.update(&mut vehicles, &vec![approaching(0)]);
    assert_eq!(vehicles[0].wait_ticks, u64::MAX);
}

#[test]
fn target_speed_levels() {
    let manager = IntersectionManager::new(&table(&[]));
    let undetected = Vehicle::new(1, 0, Route::Left, ());
    let blocked = waiting(2, 0, Route::Left, 0);
    let mut reserved = waiting(3, 0, Route::Left, 0);
    reserved.reserved = true;

    assert_eq!(manager.target_speed(&undetected, false, StopBand::AtStop), SpeedLevel::Cruise);
    assert_eq!(manager.target_speed(&reserved, false, StopBand::AtStop), SpeedLevel::Cruise);
    assert_eq!(manager.target_speed(&blocked, true, StopBand::AtStop), SpeedLevel::Cruise);
    assert_eq!(manager.target_speed(&blocked, false, StopBand::Far), SpeedLevel::Cruise);
    assert_eq!(manager.target_speed(&blocked, false, StopBand::Near), SpeedLevel::Slow);
    assert_eq!(manager.target_speed(&blocked, false, StopBand::AtStop), SpeedLevel::Stop);

    assert_eq!(SpeedLevel::Stop.px_per_second(), 0);
    assert_eq!(SpeedLevel::Slow.px_per_second(), 50);
    assert_eq!(SpeedLevel::Cruise.px_per_second(), 120);
}
