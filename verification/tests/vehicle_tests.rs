use smart_road::geometry::Route;
use smart_road::vehicle::{
    dynamics_sample, Vehicle, VehicleVisual, ACCELERATION_SALT, BRAKING_SALT,
};

const MIN_DYNAMICS_FACTOR: f64 = 0.80;
const MAX_DYNAMICS_FACTOR: f64 = 1.25;

fn factor(id: u64, salt: u64) -> f64 {
    let unit = dynamics_sample(id, salt) as f64 / ((1_u64 << 53) as f64);
    MIN_DYNAMICS_FACTOR + unit * (MAX_DYNAMICS_FACTOR - MIN_DYNAMICS_FACTOR)
}

fn reference_mix(id: u64, salt: u64) -> u64 {
    let mut value = id.wrapping_add(salt);
    value = (value ^ (value >> 30)).wrapping_mul(0xBF58_476D_1CE4_E5B9);
    value = (value ^ (value >> 27)).wrapping_mul(0x94D0_49BB_1331_11EB);
    value ^ (value >> 31)
}

#[test]
fn first_seven_vehicles_cover_all_visual_variants() {
    assert_eq!(VehicleVisual::from_id(1), VehicleVisual::Sedan);
    assert_eq!(VehicleVisual::from_id(2), VehicleVisual::Sport);
    assert_eq!(VehicleVisual::from_id(3), VehicleVisual::RoboTaxi);
    assert_eq!(VehicleVisual::from_id(4), VehicleVisual::Bus);
    assert_eq!(VehicleVisual::from_id(5), VehicleVisual::Police);
    assert_eq!(VehicleVisual::from_id(6), VehicleVisual::Ambulance);
    assert_eq!(VehicleVisual::from_id(7), VehicleVisual::Fire);
}

#[test]
fn visual_variants_repeat_every_seven_ids() {
    assert_eq!(VehicleVisual::from_id(0), VehicleVisual::Sedan);
    assert_eq!(VehicleVisual::from_id(8), VehicleVisual::Sedan);
    assert_eq!(VehicleVisual::from_id(16), VehicleVisual::Sport);
    for id in 1..100 {
        assert_eq!(VehicleVisual::from_id(id), VehicleVisual::from_id(id + 7));
    }
}

#[test]
fn vehicles_have_individual_acceleration_and_braking_profiles() {
    let accelerations: Vec<f64> = (1..=3).map(|id| factor(id, ACCELERATION_SALT)).collect();
    let brakings: Vec<f64> = (1..=3).map(|id| factor(id, BRAKING_SALT)).collect();

    assert_ne!(accelerations[0], accelerations[1]);
    assert_ne!(accelerations[1], accelerations[2]);
    assert_ne!(brakings[0], brakings[1]);
    assert_ne!(brakings[1], brakings[2]);

    for value in accelerations.iter().chain(brakings.iter()) {
        assert!((MIN_DYNAMICS_FACTOR..=MAX_DYNAMICS_FACTOR).contains(value));
    }
}

#[test]
fn dynamics_sample_is_the_top_bits_of_the_mixer() {
    for id in [0_u64, 1, 2, 42, u64::MAX] {
        for salt in [ACCELERATION_SALT, BRAKING_SALT] {
            let sample = dynamics_sample(id, salt);
            assert_eq!(sample, reference_mix(id, salt) >> 11);
            assert!(sample < 1_u64 << 53);
        }
    }
    assert_eq!(dynamics_sample(0, 0), 0);
}

#[test]
fn new_vehicle_starts_undetected_and_unreserved() {
    let vehicle = Vehicle::new(9, 2, Route::Left, "motion");
    assert_eq!(vehicle.id, 9);
    assert_eq!(vehicle.origin, 2);
    assert_eq!(vehicle.route, Route::Left);
    assert_eq!(vehicle.visual, VehicleVisual::Sport);
    assert_eq!(vehicle.detected_tick, None);
    assert_eq!(vehicle.wait_ticks, 0);
    assert!(!vehicle.reserved);
    assert_eq!(vehicle.motion, "motion");
    assert_eq!(vehicle.movement_id(), 8);
}
