use smart_road::geometry::Route;
use smart_road::render::{panel_counts, turn_signal_visible, vehicle_render_size};
use smart_road::vehicle::{Vehicle, VehicleVisual};

#[test]
fn vehicle_render_sizes() {
    assert_eq!(vehicle_render_size(VehicleVisual::Sedan), (16, 32));
    assert_eq!(vehicle_render_size(VehicleVisual::RoboTaxi), (17, 30));
    assert_eq!(vehicle_render_size(VehicleVisual::Bus), (18, 46));
    assert_eq!(vehicle_render_size(VehicleVisual::Ambulance), (19, 40));
    assert_eq!(vehicle_render_size(VehicleVisual::Fire), (19, 44));
}

#[test]
fn turn_signals_blink_on_turning_vehicles_only() {
    assert!(turn_signal_visible(Route::Left, 30, true, 0));
    assert!(turn_signal_visible(Route::Right, 22, true, 19));
    assert!(!turn_signal_visible(Route::Right, 22, true, 20));
    assert!(turn_signal_visible(Route::Right, 22, true, 40));
    assert!(!turn_signal_visible(Route::Straight, 2, true, 0));
    assert!(!turn_signal_visible(Route::Left, 2, true, 0));
    assert!(!turn_signal_visible(Route::Left, 30, false, 0));
}

#[test]
fn panel_counts_reserved_and_waiting_vehicles() {
    let mut reserved = Vehicle::new(1, 0, Route::Left, ());
    reserved.detected_tick = Some(3);
    reserved.reserved = true;
    let mut waiting = Vehicle::new(2, 1, Route::Straight, ());
    waiting.detected_tick = Some(4);
    let mut right_turn = Vehicle::new(3, 2, Route::Right, ());
    right_turn.detected_tick = Some(4);
    let undetected = Vehicle::new(4, 3, Route::Left, ());
    assert_eq!(panel_counts(&vec![reserved, waiting, right_turn, undetected]), (1, 1));
}
