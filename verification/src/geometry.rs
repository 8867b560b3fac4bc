//! Intersection layout constants, routes and movement encoding.

use vstd::prelude::*;

verus! {

/// Logical width of the intersection area in pixels.
pub const W: u32 = 900;
/// Logical height of the intersection area in pixels.
pub const H: u32 = 900;
/// Physics updates per simulated second.
pub const FIXED_HZ: u32 = 60;
/// Number of incoming directions (north, east, south, west).
pub const ORIGIN_COUNT: usize = 4;
/// Routes available to every incoming direction.
pub const ROUTE_COUNT: usize = 3;
/// Distinct movements: one per origin and route.
pub const MOVEMENT_COUNT: usize = 12;

/// Width of one lane in pixels.
pub const LANE_W: u32 = 40;
/// Vehicle body length and width in pixels.
pub const CAR_LEN: u32 = 30;
pub const CAR_W: u32 = 17;
/// Clearance kept around vehicle bodies in pixels.
pub const SAFETY_GAP: u32 = 14;
/// Extra following allowance that keeps rotated bodies apart on the tight
/// left-turn radius.
pub const CURVATURE_ALLOWANCE: u32 = 22;
/// Minimum distance between consecutive vehicles of one movement.
pub const FOLLOW_DISTANCE: u32 = CAR_LEN + SAFETY_GAP + CURVATURE_ALLOWANCE;
/// Distance before the stop line at which the controller detects a vehicle.
pub const DETECTION_DISTANCE: u32 = 180;
/// Distance before the stop line below which blocked vehicles slow down.
pub const SLOW_ZONE: u32 = 140;
/// Nominal acceleration and braking in px/s².
pub const MAX_ACCELERATION: u32 = 100;
pub const MAX_BRAKING: u32 = 180;

/// Ticks between two automatic spawn attempts (two thirds of a second).
pub const AUTO_SPAWN_TICKS: u64 = 40;

/// Controller target speed levels in px/s.
pub const SPEED_STOP: u32 = 0;
pub const SPEED_SLOW: u32 = 50;
pub const SPEED_CRUISE: u32 = 120;

#[derive(Clone, Copy, Debug, PartialEq, Eq, Hash, Structural)]
pub enum Route {
    Right,
    Straight,
    Left,
}

pub open spec fn route_index(route: Route) -> nat {
    match route {
        Route::Right => 0,
        Route::Straight => 1,
        Route::Left => 2,
    }
}

pub open spec fn route_at(index: nat) -> Route {
    if index == 0 {
        Route::Right
    } else if index == 1 {
        Route::Straight
    } else {
        Route::Left
    }
}

/// Movement number of `route` entering from `origin`.
pub open spec fn movement_of(origin: int, route: Route) -> int {
    origin * 3 + route_index(route)
}

impl Route {
    pub fn index(self) -> (r: usize)
        ensures
            r == route_index(self),
            r < ROUTE_COUNT,
    {
        match self {
            Route::Right => 0,
            Route::Straight => 1,
            Route::Left => 2,
        }
    }

    /// The sprite sheet stores straight, left and right in this order.
    pub fn sprite_index(self) -> (r: usize)
        ensures
            r == match self {
                Route::Straight => 0nat,
                Route::Left => 1nat,
                Route::Right => 2nat,
            },
    {
        match self {
            Route::Straight => 0,
            Route::Left => 1,
            Route::Right => 2,
        }
    }

    /// The three routes in index order.
    pub fn all() -> (routes: [Route; 3])
        ensures
            forall|i: int| 0 <= i < 3 ==> route_index(#[trigger] routes@[i]) == i,
    {
        [Route::Right, Route::Straight, Route::Left]
    }
}

/// The following distance is a vehicle length plus the safety gap plus the
/// curvature allowance: 30 + 14 + 22 = 66 px.
pub proof fn following_distance_law()
    ensures
        FOLLOW_DISTANCE == CAR_LEN + SAFETY_GAP + CURVATURE_ALLOWANCE,
        FOLLOW_DISTANCE == 66,
{
}

/// The three target speed levels are strictly ordered: stop, slow, cruise.
pub proof fn speed_levels_law()
    ensures
        SPEED_STOP < SPEED_SLOW < SPEED_CRUISE,
{
}

/// The origin a movement enters from.
pub fn movement_origin(m: usize) -> (origin: usize)
    ensures
        origin == m / 3,
{
    m / 3
}

/// The route a movement follows.
pub fn movement_route(m: usize) -> (route: Route)
    ensures
        route == route_at((m % 3) as nat),
        movement_of((m / 3) as int, route) == m,
{
    let r = m % 3;
    if r == 0 {
        Route::Right
    } else if r == 1 {
        Route::Straight
    } else {
        Route::Left
    }
}

/// Movement numbers encode origin and route one to one: decoding a
/// movement number gives back the origin and route it was made from, and
/// the twelve movements are exactly the numbers below twelve.
pub proof fn movement_encoding_law(origin: int, route: Route)
    requires
        0 <= origin,
    ensures
        movement_of(origin, route) / 3 == origin,
        route_at((movement_of(origin, route) % 3) as nat) == route,
        origin < ORIGIN_COUNT <==> 0 <= movement_of(origin, route) < MOVEMENT_COUNT,
{
}

pub fn movement_id(origin: usize, route: Route) -> (m: usize)
    requires
        origin * 3 + 2 <= usize::MAX,
    ensures
        m == movement_of(origin as int, route),
{
    origin * 3 + route.index()
}

} // verus!

verus! {

/// Which pairs of distinct movements overlap inside the conflict area. The
/// overlap test is evaluated once per unordered pair of movements, so the
/// relation is symmetric and no movement conflicts with itself.
pub struct ConflictMatrix {
    cells: Vec<Vec<bool>>,
}

impl ConflictMatrix {
    #[verifier::type_invariant]
    spec fn square(self) -> bool {
        &&& self.cells@.len() == MOVEMENT_COUNT
        &&& forall|a: int| 0 <= a < MOVEMENT_COUNT ==> #[trigger] self.cells@[a]@.len() == MOVEMENT_COUNT
    }

    /// Whether movements `a` and `b` are recorded as conflicting.
    pub closed spec fn conflicting(self, a: int, b: int) -> bool {
        if a < b {
            self.cells@[a]@[b]
        } else if b < a {
            self.cells@[b]@[a]
        } else {
            false
        }
    }

    /// The conflict relation is symmetric and irreflexive.
    pub proof fn symmetry_law(self)
        ensures
            forall|a: int, b: int| #[trigger] self.conflicting(a, b) == self.conflicting(b, a),
            forall|a: int| !#[trigger] self.conflicting(a, a),
    {
    }

    pub fn conflicts(&self, a: usize, b: usize) -> (r: bool)
        requires
            a < MOVEMENT_COUNT,
            b < MOVEMENT_COUNT,
        ensures
            r == self.conflicting(a as int, b as int),
    {
        proof {
            use_type_invariant(self);
        }
        if a < b {
            self.cells[a][b]
        } else if b < a {
            self.cells[b][a]
        } else {
            false
        }
    }
}

/// A square table of movements indexed `0..MOVEMENT_COUNT` on both sides.
pub open spec fn movement_table(table: Seq<Vec<bool>>) -> bool {
    &&& table.len() == MOVEMENT_COUNT
    &&& forall|a: int| 0 <= a < MOVEMENT_COUNT ==> #[trigger] table[a]@.len() == MOVEMENT_COUNT
}

/// The overlap test's answer for the unordered pair of movements `a` and
/// `b`, read with the lower-numbered movement first; false for `a == b`.
pub open spec fn pair_entry(table: Seq<Vec<bool>>, a: int, b: int) -> bool {
    if a < b {
        table[a]@[b]
    } else if b < a {
        table[b]@[a]
    } else {
        false
    }
}

/// Builds the conflict matrix from the pairwise path-overlap test. The test
/// is symmetric, so its answer for each unordered pair, read from row
/// `min(a, b)`, decides both orders; no movement conflicts with itself.
pub fn build_conflict_matrix(pair_conflicts: &Vec<Vec<bool>>) -> (m: ConflictMatrix)
    requires
        movement_table(pair_conflicts@),
    ensures
        forall|a: int, b: int|
            0 <= a < MOVEMENT_COUNT && 0 <= b < MOVEMENT_COUNT ==> #[trigger] m.conflicting(a, b)
                == pair_entry(pair_conflicts@, a, b),
{
    let mut cells: Vec<Vec<bool>> = Vec::new();
    let mut first: usize = 0;
    while first < MOVEMENT_COUNT
        invariant
            first <= MOVEMENT_COUNT,
            movement_table(pair_conflicts@),
            cells@.len() == first,
            forall|a: int| 0 <= a < first ==> #[trigger] cells@[a]@.len() == MOVEMENT_COUNT,
            forall|a: int, b: int|
                0 <= a < first && 0 <= b < MOVEMENT_COUNT ==> #[trigger] cells@[a]@[b] == (a < b
                    && pair_conflicts@[a]@[b]),
        decreases MOVEMENT_COUNT - first,
    {
        let mut row: Vec<bool> = Vec::new();
        let mut second: usize = 0;
        while second < MOVEMENT_COUNT
            invariant
                first < MOVEMENT_COUNT,
                second <= MOVEMENT_COUNT,
                movement_table(pair_conflicts@),
                row@.len() == second,
                forall|b: int| 0 <= b < second ==> #[trigger] row@[b] == (first < b
                    && pair_conflicts@[first as int]@[b]),
            decreases MOVEMENT_COUNT - second,
        {
            let conflict = first < second && pair_conflicts[first][second];
            row.push(conflict);
            second += 1;
        }
        cells.push(row);
        first += 1;
    }
    ConflictMatrix { cells }
}

} // verus!
