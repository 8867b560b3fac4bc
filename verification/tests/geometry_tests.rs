use smart_road::geometry::{
    build_conflict_matrix, movement_id, movement_origin, movement_route, Route, CAR_LEN,
    CURVATURE_ALLOWANCE, FOLLOW_DISTANCE, MOVEMENT_COUNT, SAFETY_GAP, SPEED_CRUISE, SPEED_SLOW,
    SPEED_STOP,
};

fn table(conflicting: &[(usize, usize)]) -> Vec<Vec<bool>> {
    let mut rows = vec![vec![false; MOVEMENT_COUNT]; MOVEMENT_COUNT];
    for &(a, b) in conflicting {
        rows[a][b] = true;
        rows[b][a] = true;
    }
    rows
}

#[test]
fn three_target_velocity_levels_exist() {
    assert!(SPEED_STOP < SPEED_SLOW);
    assert!(SPEED_SLOW < SPEED_CRUISE);
}

#[test]
fn speed_levels_have_their_documented_values() {
    assert_eq!(SPEED_STOP, 0);
    assert_eq!(SPEED_SLOW, 50);
    assert_eq!(SPEED_CRUISE, 120);
}

#[test]
fn following_distance_is_length_gap_and_curvature_allowance() {
    assert_eq!(FOLLOW_DISTANCE, CAR_LEN + SAFETY_GAP + CURVATURE_ALLOWANCE);
    assert_eq!(FOLLOW_DISTANCE, 66);
}

#[test]
fn route_indices_and_sprite_indices() {
    assert_eq!(Route::Right.index(), 0);
    assert_eq!(Route::Straight.index(), 1);
    assert_eq!(Route::Left.index(), 2);
    assert_eq!(Route::Straight.sprite_index(), 0);
    assert_eq!(Route::Left.sprite_index(), 1);
    assert_eq!(Route::Right.sprite_index(), 2);
    assert_eq!(Route::all(), [Route::Right, Route::Straight, Route::Left]);
}

#[test]
fn movement_ids_number_origins_then_routes() {
    assert_eq!(movement_id(0, Route::Right), 0);
    assert_eq!(movement_id(0, Route::Left), 2);
    assert_eq!(movement_id(2, Route::Straight), 7);
    assert_eq!(movement_id(3, Route::Left), 11);
}

#[test]
fn movement_ids_decode_back_to_origin_and_route() {
    let mut seen = vec![false; MOVEMENT_COUNT];
    for origin in 0..4 {
        for route in Route::all() {
            let m = movement_id(origin, route);
            assert!(m < MOVEMENT_COUNT);
            assert!(!seen[m]);
            seen[m] = true;
            assert_eq!(movement_origin(m), origin);
            assert_eq!(movement_route(m), route);
        }
    }
    assert!(seen.iter().all(|&s| s));
}

#[test]
fn conflict_matrix_ignores_self_overlap() {
    let mut raw = table(&[(1, 4)]);
    for m in 0..MOVEMENT_COUNT {
        raw[m][m] = true;
    }
    let matrix = build_conflict_matrix(&raw);
    for m in 0..MOVEMENT_COUNT {
        assert!(!matrix.conflicts(m, m));
    }
    assert!(matrix.conflicts(1, 4));
    assert!(matrix.conflicts(4, 1));
    assert!(!matrix.conflicts(1, 5));
}

#[test]
fn conflict_matrix_is_symmetric_for_a_symmetric_test() {
    let raw = table(&[(0, 5), (1, 7), (2, 10), (4, 11)]);
    let matrix = build_conflict_matrix(&raw);
    for a in 0..MOVEMENT_COUNT {
        for b in 0..MOVEMENT_COUNT {
            assert_eq!(matrix.conflicts(a, b), matrix.conflicts(b, a));
            assert_eq!(matrix.conflicts(a, b), a != b && raw[a][b]);
        }
    }
}

#[test]
fn conflict_matrix_reads_each_pair_from_the_lower_movement() {
    let mut raw = vec![vec![false; MOVEMENT_COUNT]; MOVEMENT_COUNT];
    raw[2][9] = true;
    raw[8][3] = true;
    let matrix = build_conflict_matrix(&raw);
    assert!(matrix.conflicts(2, 9));
    assert!(matrix.conflicts(9, 2));
    assert!(!matrix.conflicts(3, 8));
    assert!(!matrix.conflicts(8, 3));
    for a in 0..MOVEMENT_COUNT {
        for b in 0..MOVEMENT_COUNT {
            assert_eq!(matrix.conflicts(a, b), matrix.conflicts(b, a));
        }
    }
}
