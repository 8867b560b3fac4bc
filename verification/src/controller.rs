//! Central reservation manager for autonomous vehicles.
//!
//! The manager is not a traffic light. It grants independent movement
//! reservations to several non-conflicting lanes at the same time and lets
//! blocked vehicles approach at a reduced speed until their route is safe.

use crate::geometry::{
    DETECTION_DISTANCE, SLOW_ZONE, build_conflict_matrix, movement_table, pair_entry, ConflictMatrix, MOVEMENT_COUNT, SPEED_CRUISE,
    SPEED_SLOW, SPEED_STOP,
};
use crate::vehicle::Vehicle;
use vstd::prelude::*;

verus! {

/// Vehicles ask for a reservation this many pixels before their stop line.
pub const RESERVATION_LOOKAHEAD: u32 = 160;
/// Reservations are requested before the slow-down zone begins, and not
/// before the controller has detected the vehicle: the request point lies
/// further from the stop line than the slow zone reaches and no further
/// than the detection point.
pub proof fn request_before_slow_zone_law()
    ensures
        SLOW_ZONE < RESERVATION_LOOKAHEAD <= DETECTION_DISTANCE,
{
}

/// Waiting-tick weight of one queued vehicle in the admission score.
pub const PRESSURE_WEIGHT: u64 = 60;

/// What the controller needs to know of a vehicle's position on its path
/// during one update.
#[derive(Clone, Copy, Debug)]
pub struct ProgressFacts {
    /// Order of the vehicle's progress among all vehicles: a larger rank is
    /// further along, equal progress gives equal rank.
    pub rank: u64,
    /// The vehicle has left the conflict area of its path.
    pub past_conflict_exit: bool,
    /// The vehicle is at or past the point where it asks for a reservation.
    pub at_request_point: bool,
}

/// Distance from a vehicle to its stop line, in the three bands that the
/// speed controller tells apart: beyond the slow zone, inside it but more
/// than two pixels away, and at the line.
#[derive(Clone, Copy, Debug, PartialEq, Eq, Structural)]
pub enum StopBand {
    Far,
    Near,
    AtStop,
}

/// The three target speed levels.
#[derive(Clone, Copy, Debug, PartialEq, Eq, Structural)]
pub enum SpeedLevel {
    Stop,
    Slow,
    Cruise,
}

impl SpeedLevel {
    /// The level's speed in px/s.
    pub fn px_per_second(self) -> (v: u32)
        ensures
            v == match self {
                SpeedLevel::Stop => SPEED_STOP,
                SpeedLevel::Slow => SPEED_SLOW,
                SpeedLevel::Cruise => SPEED_CRUISE,
            },
    {
        match self {
            SpeedLevel::Stop => SPEED_STOP,
            SpeedLevel::Slow => SPEED_SLOW,
            SpeedLevel::Cruise => SPEED_CRUISE,
        }
    }
}

/// A reservation survives the update while its vehicle is still inside or
/// before the conflict area.
pub open spec fn keeps_reservation<M>(v: Vehicle<M>, f: ProgressFacts) -> bool {
    v.reserved && !f.past_conflict_exit
}

/// A detected vehicle without a (surviving) reservation.
pub open spec fn is_waiting<M>(v: Vehicle<M>, f: ProgressFacts) -> bool {
    v.detected_tick is Some && !keeps_reservation(v, f)
}

/// A waiting vehicle that has reached its request point and has not yet
/// left the conflict area: a vehicle that has left needs no reservation.
pub open spec fn is_requesting<M>(v: Vehicle<M>, f: ProgressFacts) -> bool {
    is_waiting(v, f) && f.at_request_point && !f.past_conflict_exit
}

/// Number of waiting vehicles of movement `m` among the first `k`.
pub open spec fn pressure_upto<M>(
    vs: Seq<Vehicle<M>>,
    fs: Seq<ProgressFacts>,
    m: int,
    k: int,
) -> nat
    decreases k,
{
    if k <= 0 {
        0
    } else {
        pressure_upto(vs, fs, m, k - 1) + (if is_waiting(vs[k - 1], fs[k - 1]) && vs[k
            - 1].movement() == m {
            1nat
        } else {
            0nat
        })
    }
}

/// Queue pressure of movement `m`: its number of waiting vehicles.
pub open spec fn queue_pressure<M>(vs: Seq<Vehicle<M>>, fs: Seq<ProgressFacts>, m: int) -> nat {
    pressure_upto(vs, fs, m, vs.len() as int)
}

/// Vehicle `i` is the front requesting vehicle of its movement: no other
/// requesting vehicle of that movement is further along, and among equally
/// advanced ones it comes first.
pub open spec fn is_front<M>(vs: Seq<Vehicle<M>>, fs: Seq<ProgressFacts>, i: int) -> bool {
    &&& 0 <= i < vs.len()
    &&& is_requesting(vs[i], fs[i])
    &&& forall|j: int|
        0 <= j < vs.len() && #[trigger] is_requesting(vs[j], fs[j]) && vs[j].movement()
            == vs[i].movement() ==> fs[j].rank < fs[i].rank || (fs[j].rank == fs[i].rank && i
            <= j)
}

/// Admission score: waiting ticks plus the weighted queue pressure,
/// saturating at `u64::MAX`.
pub open spec fn priority_score<M>(vs: Seq<Vehicle<M>>, fs: Seq<ProgressFacts>, i: int) -> int {
    let raw = vs[i].wait_ticks + queue_pressure(vs, fs, vs[i].movement()) * PRESSURE_WEIGHT;
    if raw > u64::MAX {
        u64::MAX as int
    } else {
        raw
    }
}

/// Candidate `i` is considered before candidate `j`: higher score first,
/// then further progress, then lower id, then lower movement number.
pub open spec fn precedes<M>(vs: Seq<Vehicle<M>>, fs: Seq<ProgressFacts>, i: int, j: int) -> bool {
    let si = priority_score(vs, fs, i);
    let sj = priority_score(vs, fs, j);
    ||| si > sj
    ||| si == sj && fs[i].rank > fs[j].rank
    ||| si == sj && fs[i].rank == fs[j].rank && vs[i].id < vs[j].id
    ||| si == sj && fs[i].rank == fs[j].rank && vs[i].id == vs[j].id && vs[i].movement()
        < vs[j].movement()
}

/// The new record of a vehicle differs from the old one at most in its
/// reservation and waiting ticks.
pub open spec fn same_vehicle<M>(new: Vehicle<M>, old: Vehicle<M>) -> bool {
    &&& new.id == old.id
    &&& new.origin == old.origin
    &&& new.route == old.route
    &&& new.visual == old.visual
    &&& new.detected_tick == old.detected_tick
    &&& new.motion == old.motion
}

/// Waiting ticks after an update: reset on admission, counted up
/// (saturating) while detected and unreserved, unchanged otherwise.
pub open spec fn next_wait_ticks<M>(old: Vehicle<M>, f: ProgressFacts, new: Vehicle<M>) -> u64 {
    if new.reserved && !keeps_reservation(old, f) {
        0
    } else if old.detected_tick is Some && !new.reserved {
        if old.wait_ticks == u64::MAX {
            u64::MAX
        } else {
            (old.wait_ticks + 1) as u64
        }
    } else {
        old.wait_ticks
    }
}

/// Some surviving reservation belongs to movement `x`.
pub open spec fn held<M>(vs: Seq<Vehicle<M>>, fs: Seq<ProgressFacts>, x: int) -> bool {
    exists|j: int| 0 <= j < vs.len() && #[trigger] keeps_reservation(vs[j], fs[j]) && vs[j].movement() == x
}

/// All vehicles enter from one of the four origins.
pub open spec fn all_placed<M>(vs: Seq<Vehicle<M>>) -> bool {
    forall|i: int| 0 <= i < vs.len() ==> (#[trigger] vs[i]).placed()
}

/// `fr[m]` names the front requesting vehicle of movement `m`, if any.
spec fn fronts_found<M>(vs: Seq<Vehicle<M>>, fs: Seq<ProgressFacts>, fr: Seq<Option<usize>>) -> bool {
    &&& fr.len() == MOVEMENT_COUNT
    &&& forall|m: int|
        0 <= m < MOVEMENT_COUNT ==> match #[trigger] fr[m] {
            Some(i) => i < vs.len() && is_front(vs, fs, i as int) && vs[i as int].movement() == m,
            None => forall|j: int|
                0 <= j < vs.len() && #[trigger] is_requesting(vs[j], fs[j]) ==> vs[j].movement()
                    != m,
        }
}

proof fn lemma_pressure_bounded<M>(vs: Seq<Vehicle<M>>, fs: Seq<ProgressFacts>, m: int, k: int)
    requires
        0 <= k,
    ensures
        pressure_upto(vs, fs, m, k) <= k,
    decreases k,
{
    if k > 0 {
        lemma_pressure_bounded(vs, fs, m, k - 1);
    }
}

/// The front vehicle of a movement is the one `fr` names.
proof fn lemma_front_unique<M>(
    vs: Seq<Vehicle<M>>,
    fs: Seq<ProgressFacts>,
    fr: Seq<Option<usize>>,
    i: int,
)
    requires
        fronts_found(vs, fs, fr),
        all_placed(vs),
        is_front(vs, fs, i),
    ensures
        fr[vs[i].movement()] == Some(i as usize),
{
    let m = vs[i].movement();
    assert(vs[i].placed());
    assert(is_requesting(vs[i], fs[i]));
    match fr[m] {
        Some(c) => {
            let c = c as int;
            assert(is_requesting(vs[c], fs[c]));
            assert(fs[c].rank < fs[i].rank || (fs[c].rank == fs[i].rank && i <= c));
            assert(fs[i].rank < fs[c].rank || (fs[i].rank == fs[c].rank && c <= i));
        },
        None => {},
    }
}

/// Which reservations survive this update.
fn surviving_reservations<M>(vehicles: &Vec<Vehicle<M>>, facts: &Vec<ProgressFacts>) -> (kept: Vec<bool>)
    requires
        facts@.len() == vehicles@.len(),
    ensures
        kept@.len() == vehicles@.len(),
        forall|i: int|
            0 <= i < vehicles@.len() ==> #[trigger] kept@[i] == keeps_reservation(
                vehicles@[i],
                facts@[i],
            ),
{
    let mut kept: Vec<bool> = Vec::new();
    let mut i: usize = 0;
    while i < vehicles.len()
        invariant
            i <= vehicles@.len(),
            facts@.len() == vehicles@.len(),
            kept@.len() == i,
            forall|k: int|
                0 <= k < i ==> #[trigger] kept@[k] == keeps_reservation(vehicles@[k], facts@[k]),
        decreases vehicles@.len() - i,
    {
        kept.push(vehicles[i].reserved && !facts[i].past_conflict_exit);
        i += 1;
    }
    kept
}

/// The movements that hold a surviving reservation.
fn held_movements<M>(vehicles: &Vec<Vehicle<M>>, facts: &Vec<ProgressFacts>, kept: &Vec<bool>) -> (active: Vec<usize>)
    requires
        facts@.len() == vehicles@.len(),
        kept@.len() == vehicles@.len(),
        all_placed(vehicles@),
        forall|i: int|
            0 <= i < vehicles@.len() ==> #[trigger] kept@[i] == keeps_reservation(
                vehicles@[i],
                facts@[i],
            ),
    ensures
        forall|x: usize| #[trigger] active@.contains(x) <==> x < MOVEMENT_COUNT && held(vehicles@, facts@, x as int),
{
    let ghost vs = vehicles@;
    let ghost fs = facts@;
    let mut active: Vec<usize> = Vec::new();
    let mut i: usize = 0;
    while i < vehicles.len()
        invariant
            i <= vs.len(),
            vs == vehicles@,
            fs == facts@,
            fs.len() == vs.len(),
            kept@.len() == vs.len(),
            all_placed(vs),
            forall|k: int| 0 <= k < vs.len() ==> #[trigger] kept@[k] == keeps_reservation(vs[k], fs[k]),
            forall|x: usize| #[trigger] active@.contains(x) ==> x < MOVEMENT_COUNT && held(vs, fs, x as int),
            forall|k: int|
                0 <= k < i && keeps_reservation(vs[k], fs[k]) ==> active@.contains(
                    (#[trigger] vs[k]).movement() as usize,
                ),
        decreases vs.len() - i,
    {
        if kept[i] {
            proof {
                assert(vs[i as int].placed());
                assert(keeps_reservation(vs[i as int], fs[i as int]));
            }
            let ghost prev = active@;
            let m = vehicles[i].movement_id();
            active.push(m);
            proof {
                assert(active@ == prev.push(m));
                assert forall|x: usize| #[trigger] active@.contains(x) implies x < MOVEMENT_COUNT && held(vs, fs, x as int) by {
                    let q = choose|q: int| 0 <= q < active@.len() && active@[q] == x;
                    if q < prev.len() {
                        assert(prev[q] == x);
                        assert(prev.contains(x));
                    } else {
                        assert(keeps_reservation(vs[i as int], fs[i as int]) && vs[i as int].movement() == x);
                    }
                }
                assert forall|k: int|
                    0 <= k < i + 1 && keeps_reservation(vs[k], fs[k]) implies active@.contains(
                    (#[trigger] vs[k]).movement() as usize,
                ) by {
                    let y = vs[k].movement() as usize;
                    if k < i {
                        assert(prev.contains(y));
                        let q = choose|q: int| 0 <= q < prev.len() && prev[q] == y;
                        assert(active@[q] == y);
                    } else {
                        assert(active@[active@.len() - 1] == y);
                    }
                }
            }
        }
        i += 1;
    }
    proof {
        assert forall|x: usize| x < MOVEMENT_COUNT && held(vs, fs, x as int) implies #[trigger] active@.contains(x) by {
            let j = choose|j: int| 0 <= j < vs.len() && #[trigger] keeps_reservation(vs[j], fs[j]) && vs[j].movement() == x;
            assert(keeps_reservation(vs[j], fs[j]));
        }
    }
    active
}

/// Waiting vehicles per movement.
fn queue_pressures<M>(vehicles: &Vec<Vehicle<M>>, facts: &Vec<ProgressFacts>, kept: &Vec<bool>) -> (pressure: Vec<usize>)
    requires
        facts@.len() == vehicles@.len(),
        kept@.len() == vehicles@.len(),
        all_placed(vehicles@),
        forall|i: int|
            0 <= i < vehicles@.len() ==> #[trigger] kept@[i] == keeps_reservation(
                vehicles@[i],
                facts@[i],
            ),
    ensures
        pressure@.len() == MOVEMENT_COUNT,
        forall|m: int|
            0 <= m < MOVEMENT_COUNT ==> #[trigger] pressure@[m] == queue_pressure(vehicles@, facts@, m)
                && pressure@[m] <= vehicles@.len(),
{
    let ghost vs = vehicles@;
    let ghost fs = facts@;
    let mut pressure: Vec<usize> = vec![0; MOVEMENT_COUNT];
    let mut i: usize = 0;
    while i < vehicles.len()
        invariant
            i <= vs.len(),
            vs == vehicles@,
            fs == facts@,
            fs.len() == vs.len(),
            kept@.len() == vs.len(),
            all_placed(vs),
            forall|k: int| 0 <= k < vs.len() ==> #[trigger] kept@[k] == keeps_reservation(vs[k], fs[k]),
            pressure@.len() == MOVEMENT_COUNT,
            forall|m: int|
                0 <= m < MOVEMENT_COUNT ==> #[trigger] pressure@[m] == pressure_upto(vs, fs, m, i as int),
        decreases vs.len() - i,
    {
        proof {
            assert(vs[i as int].placed());
            assert forall|m: int| 0 <= m < MOVEMENT_COUNT implies pressure_upto(vs, fs, m, i as int) <= i by {
                lemma_pressure_bounded(vs, fs, m, i as int);
            }
        }
        if vehicles[i].detected_tick.is_some() && !kept[i] {
            let m = vehicles[i].movement_id();
            pressure[m] = pressure[m] + 1;
        }
        i += 1;
    }
    proof {
        assert forall|m: int| 0 <= m < MOVEMENT_COUNT implies #[trigger] pressure@[m] == queue_pressure(vs, fs, m)
                && pressure@[m] <= vs.len() by {
            lemma_pressure_bounded(vs, fs, m, vs.len() as int);
        }
    }
    pressure
}

/// The front requesting vehicle of every movement.
fn front_candidates<M>(vehicles: &Vec<Vehicle<M>>, facts: &Vec<ProgressFacts>, kept: &Vec<bool>) -> (front: Vec<Option<usize>>)
    requires
        facts@.len() == vehicles@.len(),
        kept@.len() == vehicles@.len(),
        all_placed(vehicles@),
        forall|i: int|
            0 <= i < vehicles@.len() ==> #[trigger] kept@[i] == keeps_reservation(
                vehicles@[i],
                facts@[i],
            ),
    ensures
        fronts_found(vehicles@, facts@, front@),
{
    let ghost vs = vehicles@;
    let ghost fs = facts@;
    let mut front: Vec<Option<usize>> = vec![None; MOVEMENT_COUNT];
    let mut i: usize = 0;
    while i < vehicles.len()
        invariant
            i <= vs.len(),
            vs == vehicles@,
            fs == facts@,
            fs.len() == vs.len(),
            kept@.len() == vs.len(),
            all_placed(vs),
            forall|k: int| 0 <= k < vs.len() ==> #[trigger] kept@[k] == keeps_reservation(vs[k], fs[k]),
            front@.len() == MOVEMENT_COUNT,
            forall|m: int|
                0 <= m < MOVEMENT_COUNT ==> match #[trigger] front@[m] {
                    Some(c) => c < i && is_requesting(vs[c as int], fs[c as int]) && vs[c as int].movement() == m
                        && forall|j: int|
                        0 <= j < i && #[trigger] is_requesting(vs[j], fs[j]) && vs[j].movement() == m
                            ==> fs[j].rank < fs[c as int].rank || (fs[j].rank == fs[c as int].rank && c <= j),
                    None => forall|j: int|
                        0 <= j < i && #[trigger] is_requesting(vs[j], fs[j]) ==> vs[j].movement() != m,
                },
        decreases vs.len() - i,
    {
        proof {
            assert(vs[i as int].placed());
        }
        if vehicles[i].detected_tick.is_some() && !kept[i] && facts[i].at_request_point
            && !facts[i].past_conflict_exit {
            let m = vehicles[i].movement_id();
            let replace = match front[m] {
                Some(c) => facts[c].rank < facts[i].rank,
                None => true,
            };
            if replace {
                front[m] = Some(i);
            }
            proof {
                assert(is_requesting(vs[i as int], fs[i as int]));
                assert forall|mm: int| 0 <= mm < MOVEMENT_COUNT implies match #[trigger] front@[mm] {
                    Some(c) => c < i + 1 && is_requesting(vs[c as int], fs[c as int]) && vs[c as int].movement() == mm
                        && forall|j: int|
                        0 <= j < i + 1 && #[trigger] is_requesting(vs[j], fs[j]) && vs[j].movement() == mm
                            ==> fs[j].rank < fs[c as int].rank || (fs[j].rank == fs[c as int].rank && c <= j),
                    None => forall|j: int|
                        0 <= j < i + 1 && #[trigger] is_requesting(vs[j], fs[j]) ==> vs[j].movement() != mm,
                } by {
                    if mm != m {
                        assert(vs[i as int].movement() != mm);
                    }
                }
            }
        } else {
            proof {
                assert(!is_requesting(vs[i as int], fs[i as int]));
            }
        }
        i += 1;
    }
    proof {
        assert forall|m: int| 0 <= m < MOVEMENT_COUNT implies match #[trigger] front@[m] {
            Some(i) => i < vs.len() && is_front(vs, fs, i as int) && vs[i as int].movement() == m,
            None => forall|j: int|
                0 <= j < vs.len() && #[trigger] is_requesting(vs[j], fs[j]) ==> vs[j].movement() != m,
        } by {
            match front@[m] {
                Some(c) => {
                    assert forall|j: int|
                        0 <= j < vs.len() && #[trigger] is_requesting(vs[j], fs[j]) && vs[j].movement()
                            == vs[c as int].movement() implies fs[j].rank < fs[c as int].rank || (fs[j].rank
                            == fs[c as int].rank && c <= j) by {}
                },
                None => {},
            }
        }
    }
    front
}

/// The vehicle index that `fr` names for movement `m`.
spec fn front_index(fr: Seq<Option<usize>>, m: int) -> int {
    fr[m].unwrap() as int
}

/// The pressure table matches the queue pressure of every movement.
spec fn pressures_found<M>(vs: Seq<Vehicle<M>>, fs: Seq<ProgressFacts>, pressure: Seq<usize>) -> bool {
    &&& pressure.len() == MOVEMENT_COUNT
    &&& forall|m: int|
        0 <= m < MOVEMENT_COUNT ==> #[trigger] pressure[m] == queue_pressure(vs, fs, m)
            && pressure[m] <= vs.len()
}

fn admission_score<M>(
    vehicles: &Vec<Vehicle<M>>,
    facts: &Vec<ProgressFacts>,
    pressure: &Vec<usize>,
    i: usize,
) -> (score: u64)
    requires
        i < vehicles@.len(),
        facts@.len() == vehicles@.len(),
        vehicles@.len() * 60 <= u64::MAX,
        all_placed(vehicles@),
        pressures_found(vehicles@, facts@, pressure@),
    ensures
        score == priority_score(vehicles@, facts@, i as int),
{
    proof {
        assert(vehicles@[i as int].placed());
    }
    let m = vehicles[i].movement_id();
    let weighted = (pressure[m] as u64) * PRESSURE_WEIGHT;
    vehicles[i].wait_ticks.saturating_add(weighted)
}

fn precedes_exec<M>(
    vehicles: &Vec<Vehicle<M>>,
    facts: &Vec<ProgressFacts>,
    pressure: &Vec<usize>,
    i: usize,
    j: usize,
) -> (r: bool)
    requires
        i < vehicles@.len(),
        j < vehicles@.len(),
        facts@.len() == vehicles@.len(),
        vehicles@.len() * 60 <= u64::MAX,
        all_placed(vehicles@),
        pressures_found(vehicles@, facts@, pressure@),
    ensures
        r == precedes(vehicles@, facts@, i as int, j as int),
{
    let si = admission_score(vehicles, facts, pressure, i);
    let sj = admission_score(vehicles, facts, pressure, j);
    if si != sj {
        return si > sj;
    }
    if facts[i].rank != facts[j].rank {
        return facts[i].rank > facts[j].rank;
    }
    if vehicles[i].id != vehicles[j].id {
        return vehicles[i].id < vehicles[j].id;
    }
    proof {
        assert(vehicles@[i as int].placed());
        assert(vehicles@[j as int].placed());
    }
    vehicles[i].movement_id() < vehicles[j].movement_id()
}

pub struct IntersectionManager {
    conflicts: ConflictMatrix,
}

impl IntersectionManager {
    /// Whether movements `a` and `b` conflict inside the intersection.
    pub closed spec fn conflicting(&self, a: int, b: int) -> bool {
        self.conflicts.conflicting(a, b)
    }

    /// A vehicle of movement `m` may cross while movement `a` holds a
    /// reservation. Vehicles on the same path are kept apart by the
    /// following-distance layer, so a movement is compatible with itself.
    pub open spec fn compatible(&self, m: int, a: int) -> bool {
        a == m || !self.conflicting(m, a)
    }

    /// Front candidate `i` is compatible with every surviving reservation
    /// and with every candidate admitted ahead of it.
    pub open spec fn admissible<M>(
        &self,
        vs: Seq<Vehicle<M>>,
        fs: Seq<ProgressFacts>,
        ws: Seq<Vehicle<M>>,
        i: int,
    ) -> bool {
        &&& forall|j: int|
            0 <= j < vs.len() && #[trigger] keeps_reservation(vs[j], fs[j]) ==> self.compatible(
                vs[i].movement(),
                vs[j].movement(),
            )
        &&& forall|j: int|
            #![trigger is_front(vs, fs, j), ws[j]]
            is_front(vs, fs, j) && precedes(vs, fs, j, i) && ws[j].reserved ==> self.compatible(
                vs[i].movement(),
                vs[j].movement(),
            )
    }

    /// The effect of one `update` on vehicles `vs` with facts `fs`, giving `ws`.
    pub open spec fn update_outcome<M>(
        &self,
        vs: Seq<Vehicle<M>>,
        fs: Seq<ProgressFacts>,
        ws: Seq<Vehicle<M>>,
    ) -> bool {
        &&& ws.len() == vs.len()
        &&& forall|i: int| 0 <= i < vs.len() ==> same_vehicle(#[trigger] ws[i], vs[i])
        &&& forall|i: int|
            0 <= i < vs.len() ==> (#[trigger] ws[i]).wait_ticks == next_wait_ticks(
                vs[i],
                fs[i],
                ws[i],
            )
        &&& forall|i: int|
            0 <= i < vs.len() && keeps_reservation(vs[i], fs[i]) ==> (#[trigger] ws[i]).reserved
        &&& forall|i: int|
            0 <= i < vs.len() && (#[trigger] ws[i]).reserved && !keeps_reservation(vs[i], fs[i])
                ==> is_front(vs, fs, i)
        &&& forall|i: int|
            #[trigger] is_front(vs, fs, i) ==> (ws[i].reserved <==> self.admissible(vs, fs, ws, i))
        &&& forall|i: int|
            0 <= i < vs.len() && fs[i].past_conflict_exit ==> !(#[trigger] ws[i]).reserved
    }

    /// Movement `m` is compatible with every surviving reservation.
    pub open spec fn clear_of_held<M>(&self, vs: Seq<Vehicle<M>>, fs: Seq<ProgressFacts>, m: int) -> bool {
        forall|j: int|
            0 <= j < vs.len() && #[trigger] keeps_reservation(vs[j], fs[j]) ==> self.compatible(
                m,
                vs[j].movement(),
            )
    }

    fn compatible_with_all(&self, m: usize, active: &Vec<usize>) -> (ok: bool)
        requires
            m < MOVEMENT_COUNT,
            forall|x: usize| #[trigger] active@.contains(x) ==> x < MOVEMENT_COUNT,
        ensures
            ok <==> forall|x: usize| #[trigger] active@.contains(x) ==> self.compatible(m as int, x as int),
    {
        let mut q: usize = 0;
        while q < active.len()
            invariant
                q <= active@.len(),
                m < MOVEMENT_COUNT,
                forall|x: usize| #[trigger] active@.contains(x) ==> x < MOVEMENT_COUNT,
                forall|k: int| 0 <= k < q ==> self.compatible(m as int, #[trigger] active@[k] as int),
            decreases active@.len() - q,
        {
            let a = active[q];
            proof {
                assert(active@.contains(a));
            }
            if a != m && self.conflicts.conflicts(m, a) {
                proof {
                    assert(active@.contains(active@[q as int]));
                }
                return false;
            }
            q += 1;
        }
        proof {
            assert forall|x: usize| #[trigger] active@.contains(x) implies self.compatible(m as int, x as int) by {
                let k = choose|k: int| 0 <= k < active@.len() && active@[k] == x;
                assert(self.compatible(m as int, active@[k] as int));
            }
        }
        true
    }

    /// Considers the front candidates from highest to lowest priority and
    /// admits each one that is compatible with every reservation held at
    /// that moment. `admitted[m]` tells whether the front of movement `m`
    /// was admitted.
    #[verifier::rlimit(60)]
    fn grant_reservations<M>(
        &self,
        vehicles: &Vec<Vehicle<M>>,
        facts: &Vec<ProgressFacts>,
        pressure: &Vec<usize>,
        front: &Vec<Option<usize>>,
        active: Vec<usize>,
    ) -> (admitted: Vec<bool>)
        requires
            facts@.len() == vehicles@.len(),
            vehicles@.len() * 60 <= u64::MAX,
            all_placed(vehicles@),
            pressures_found(vehicles@, facts@, pressure@),
            fronts_found(vehicles@, facts@, front@),
            forall|x: usize| #[trigger] active@.contains(x) <==> x < MOVEMENT_COUNT && held(vehicles@, facts@, x as int),
        ensures
            admitted@.len() == MOVEMENT_COUNT,
            forall|m: int| 0 <= m < MOVEMENT_COUNT && #[trigger] admitted@[m] ==> front@[m] is Some,
            forall|m: int|
                0 <= m < MOVEMENT_COUNT && #[trigger] front@[m] is Some ==> (admitted@[m] <==> (
                self.clear_of_held(vehicles@, facts@, m) && forall|m2: int|
                    #![trigger admitted@[m2]]
                    0 <= m2 < MOVEMENT_COUNT && front@[m2] is Some && precedes(
                        vehicles@,
                        facts@,
                        front_index(front@, m2),
                        front_index(front@, m),
                    ) && admitted@[m2] ==> self.compatible(m, m2))),
    {
        let ghost vs = vehicles@;
        let ghost fs = facts@;
        let ghost fr = front@;
        let mut active = active;
        // The movements that have a candidate, in increasing order.
        let mut cands: Vec<usize> = Vec::new();
        let mut m: usize = 0;
        while m < MOVEMENT_COUNT
            invariant
                m <= MOVEMENT_COUNT,
                fr == front@,
                fr.len() == MOVEMENT_COUNT,
                forall|q: int| 0 <= q < cands@.len() ==> #[trigger] cands@[q] < m && fr[cands@[q] as int] is Some,
                forall|q1: int, q2: int| 0 <= q1 < q2 < cands@.len() ==> #[trigger] cands@[q1] < #[trigger] cands@[q2],
                forall|mm: int| 0 <= mm < m && #[trigger] fr[mm] is Some ==> cands@.contains(mm as usize),
            decreases MOVEMENT_COUNT - m,
        {
            if front[m].is_some() {
                let ghost prev = cands@;
                cands.push(m);
                proof {
                    assert forall|mm: int| 0 <= mm < m + 1 && #[trigger] fr[mm] is Some implies cands@.contains(mm as usize) by {
                        if mm < m {
                            let q = choose|q: int| 0 <= q < prev.len() && prev[q] == mm as usize;
                            assert(cands@[q] == mm as usize);
                        } else {
                            assert(cands@[cands@.len() - 1] == mm as usize);
                        }
                    }
                }
            }
            m += 1;
        }
        let mut admitted: Vec<bool> = vec![false; MOVEMENT_COUNT];
        let ghost cands_len = cands@.len();
        let mut pos: usize = 0;
        while pos < cands.len()
            invariant
                vs == vehicles@,
                fs == facts@,
                fr == front@,
                fs.len() == vs.len(),
                vs.len() * 60 <= u64::MAX,
                all_placed(vs),
                pressures_found(vs, fs, pressure@),
                fronts_found(vs, fs, fr),
                cands@.len() == cands_len,
                pos <= cands_len,
                admitted@.len() == MOVEMENT_COUNT,
                forall|q: int| 0 <= q < cands_len ==> #[trigger] cands@[q] < MOVEMENT_COUNT && fr[cands@[q] as int] is Some,
                forall|q1: int, q2: int| 0 <= q1 < cands_len && 0 <= q2 < cands_len && q1 != q2 ==> #[trigger] cands@[q1] != #[trigger] cands@[q2],
                forall|mm: int| 0 <= mm < MOVEMENT_COUNT && #[trigger] fr[mm] is Some ==> cands@.contains(mm as usize),
                forall|q1: int, q2: int|
                    0 <= q1 < q2 < pos ==> precedes(
                        vs,
                        fs,
                        front_index(fr, #[trigger] cands@[q1] as int),
                        front_index(fr, #[trigger] cands@[q2] as int),
                    ),
                forall|q1: int, q2: int|
                    0 <= q1 < pos <= q2 < cands_len ==> precedes(
                        vs,
                        fs,
                        front_index(fr, #[trigger] cands@[q1] as int),
                        front_index(fr, #[trigger] cands@[q2] as int),
                    ),
                forall|mm: int| 0 <= mm < MOVEMENT_COUNT && #[trigger] admitted@[mm] ==> exists|q: int| 0 <= q < pos && cands@[q] == mm,
                forall|q: int|
                    0 <= q < pos ==> (#[trigger] admitted@[cands@[q] as int] <==> (self.clear_of_held(vs, fs, cands@[q] as int)
                        && forall|q2: int| 0 <= q2 < q && #[trigger] admitted@[cands@[q2] as int] ==> self.compatible(cands@[q] as int, cands@[q2] as int))),
                forall|x: usize| #[trigger] active@.contains(x) <==> x < MOVEMENT_COUNT && (held(vs, fs, x as int) || admitted@[x as int]),
            decreases cands_len - pos,
        {
            // Select the highest-priority candidate among positions pos..
            let mut best: usize = pos;
            let mut r: usize = pos + 1;
            while r < cands.len()
                invariant
                    vs == vehicles@,
                    fs == facts@,
                    fr == front@,
                    fs.len() == vs.len(),
                    vs.len() * 60 <= u64::MAX,
                    all_placed(vs),
                    pressures_found(vs, fs, pressure@),
                    fronts_found(vs, fs, fr),
                    cands@.len() == cands_len,
                    pos <= best < r <= cands_len,
                    forall|q: int| 0 <= q < cands_len ==> #[trigger] cands@[q] < MOVEMENT_COUNT && fr[cands@[q] as int] is Some,
                    forall|q1: int, q2: int| 0 <= q1 < cands_len && 0 <= q2 < cands_len && q1 != q2 ==> #[trigger] cands@[q1] != #[trigger] cands@[q2],
                    forall|q: int|
                        pos <= q < r && q != best ==> precedes(
                            vs,
                            fs,
                            front_index(fr, cands@[best as int] as int),
                            front_index(fr, #[trigger] cands@[q] as int),
                        ),
                decreases cands_len - r,
            {
                let cr = front[cands[r]].unwrap();
                let cb = front[cands[best]].unwrap();
                proof {
                    assert(fr[cands@[r as int] as int] is Some);
                    assert(fr[cands@[best as int] as int] is Some);
                    assert(cands@[r as int] != cands@[best as int]);
                }
                if precedes_exec(vehicles, facts, pressure, cr, cb) {
                    best = r;
                }
                r += 1;
            }
            // Move it to position pos.
            let chosen = cands[best];
            let displaced = cands[pos];
            let ghost before = cands@;
            cands[pos] = chosen;
            cands[best] = displaced;
            proof {
                assert forall|q: int| 0 <= q < cands_len implies #[trigger] cands@[q] == if q == pos { before[best as int] } else if q == best { before[pos as int] } else { before[q] } by {}
                assert forall|mm: int| 0 <= mm < MOVEMENT_COUNT && #[trigger] fr[mm] is Some implies cands@.contains(mm as usize) by {
                    let q = choose|q: int| 0 <= q < before.len() && before[q] == mm as usize;
                    if q == pos {
                        assert(cands@[best as int] == mm as usize);
                    } else if q == best {
                        assert(cands@[pos as int] == mm as usize);
                    } else {
                        assert(cands@[q] == mm as usize);
                    }
                }
            }
            // Admit it when it is compatible with every held reservation.
            let ok = self.compatible_with_all(chosen, &active);
            let ghost prev_active = active@;
            let ghost prev_admitted = admitted@;
            if ok {
                admitted[chosen] = true;
                active.push(chosen);
            }
            proof {
                assert(admitted@[chosen as int] == ok);
                assert forall|mm: int| 0 <= mm < MOVEMENT_COUNT && mm != chosen implies admitted@[mm] == prev_admitted[mm] by {}
                assert forall|x: usize| #[trigger] active@.contains(x) <==> x < MOVEMENT_COUNT && (held(vs, fs, x as int) || admitted@[x as int]) by {
                    if ok {
                        assert(active@ == prev_active.push(chosen));
                        if active@.contains(x) && x != chosen {
                            let q = choose|q: int| 0 <= q < active@.len() && active@[q] == x;
                            assert(prev_active[q] == x);
                            assert(prev_active.contains(x));
                        }
                        if x == chosen {
                            assert(active@[active@.len() - 1] == x);
                        }
                        if x != chosen && prev_active.contains(x) {
                            let q = choose|q: int| 0 <= q < prev_active.len() && prev_active[q] == x;
                            assert(active@[q] == x);
                        }
                    }
                }
                // Decision of the chosen candidate.
                assert(ok <==> (self.clear_of_held(vs, fs, chosen as int) && forall|q2: int| 0 <= q2 < pos && #[trigger] admitted@[cands@[q2] as int] ==> self.compatible(chosen as int, cands@[q2] as int))) by {
                    if ok {
                        assert forall|j: int| 0 <= j < vs.len() && #[trigger] keeps_reservation(vs[j], fs[j]) implies self.compatible(chosen as int, vs[j].movement()) by {
                            assert(vs[j].placed());
                            let x = vs[j].movement() as usize;
                            assert(held(vs, fs, x as int));
                            assert(prev_active.contains(x));
                        }
                        assert forall|q2: int| 0 <= q2 < pos && #[trigger] admitted@[cands@[q2] as int] implies self.compatible(chosen as int, cands@[q2] as int) by {
                            let x = cands@[q2];
                            assert(x != chosen);
                            assert(prev_admitted[x as int]);
                            assert(prev_active.contains(x));
                        }
                    } else {
                        let x = choose|x: usize| prev_active.contains(x) && !self.compatible(chosen as int, x as int);
                        if held(vs, fs, x as int) {
                            let j = choose|j: int| 0 <= j < vs.len() && #[trigger] keeps_reservation(vs[j], fs[j]) && vs[j].movement() == x;
                            assert(keeps_reservation(vs[j], fs[j]));
                        } else {
                            assert(prev_admitted[x as int]);
                            let q2 = choose|q: int| 0 <= q < pos && before[q] == x;
                            assert(cands@[q2] == x);
                            assert(admitted@[cands@[q2] as int]);
                        }
                    }
                }
                assert forall|q: int|
                    0 <= q < pos + 1 implies (#[trigger] admitted@[cands@[q] as int] <==> (self.clear_of_held(vs, fs, cands@[q] as int)
                        && forall|q2: int| 0 <= q2 < q && #[trigger] admitted@[cands@[q2] as int] ==> self.compatible(cands@[q] as int, cands@[q2] as int))) by {
                    if q < pos {
                        assert(cands@[q] == before[q]);
                        assert forall|q2: int| 0 <= q2 < q implies #[trigger] admitted@[cands@[q2] as int] == prev_admitted[before[q2] as int] by {
                            assert(cands@[q2] == before[q2]);
                            assert(before[q2] != chosen);
                        }
                        assert(before[q] != chosen);
                    }
                }
                assert forall|mm: int| 0 <= mm < MOVEMENT_COUNT && #[trigger] admitted@[mm] implies exists|q: int| 0 <= q < pos + 1 && cands@[q] == mm by {
                    if mm == chosen {
                        assert(cands@[pos as int] == mm);
                    } else {
                        assert(prev_admitted[mm]);
                        let q = choose|q: int| 0 <= q < pos && before[q] == mm;
                        assert(cands@[q] == mm);
                    }
                }
                assert forall|q1: int, q2: int|
                    0 <= q1 < pos + 1 <= q2 < cands_len implies precedes(
                        vs,
                        fs,
                        front_index(fr, #[trigger] cands@[q1] as int),
                        front_index(fr, #[trigger] cands@[q2] as int),
                    ) by {
                    if q1 < pos {
                        if q2 == best {
                            assert(precedes(vs, fs, front_index(fr, before[q1] as int), front_index(fr, before[pos as int] as int)));
                        } else {
                            assert(precedes(vs, fs, front_index(fr, before[q1] as int), front_index(fr, before[q2] as int)));
                        }
                    } else {
                        if q2 == best {
                            assert(before[pos as int] != before[best as int]);
                        }
                    }
                }
                assert forall|q1: int, q2: int|
                    0 <= q1 < q2 < pos + 1 implies precedes(
                        vs,
                        fs,
                        front_index(fr, #[trigger] cands@[q1] as int),
                        front_index(fr, #[trigger] cands@[q2] as int),
                    ) by {
                    if q2 == pos {
                        assert(precedes(vs, fs, front_index(fr, before[q1] as int), front_index(fr, before[best as int] as int)));
                    }
                }
            }
            pos += 1;
        }
        proof {
            assert forall|mm: int| 0 <= mm < MOVEMENT_COUNT && #[trigger] admitted@[mm] implies fr[mm] is Some by {
                let q = choose|q: int| 0 <= q < pos && cands@[q] == mm;
                assert(fr[cands@[q] as int] is Some);
            }
            assert forall|mm: int|
                0 <= mm < MOVEMENT_COUNT && #[trigger] fr[mm] is Some implies (admitted@[mm] <==> (
                self.clear_of_held(vs, fs, mm) && forall|m2: int|
                    #![trigger admitted@[m2]]
                    0 <= m2 < MOVEMENT_COUNT && fr[m2] is Some && precedes(
                        vs,
                        fs,
                        front_index(fr, m2),
                        front_index(fr, mm),
                    ) && admitted@[m2] ==> self.compatible(mm, m2))) by {
                assert(cands@.contains(mm as usize));
                let qm = choose|q: int| 0 <= q < cands_len && cands@[q] == mm as usize;
                assert(admitted@[cands@[qm] as int] <==> (self.clear_of_held(vs, fs, cands@[qm] as int)
                    && forall|q2: int| 0 <= q2 < qm && #[trigger] admitted@[cands@[q2] as int] ==> self.compatible(cands@[qm] as int, cands@[q2] as int)));
                let by_position = forall|q2: int| 0 <= q2 < qm && #[trigger] admitted@[cands@[q2] as int] ==> self.compatible(mm, cands@[q2] as int);
                let by_priority = forall|m2: int|
                    #![trigger admitted@[m2]]
                    0 <= m2 < MOVEMENT_COUNT && fr[m2] is Some && precedes(
                        vs,
                        fs,
                        front_index(fr, m2),
                        front_index(fr, mm),
                    ) && admitted@[m2] ==> self.compatible(mm, m2);
                if by_position {
                    assert forall|m2: int|
                        0 <= m2 < MOVEMENT_COUNT && fr[m2] is Some && precedes(
                            vs,
                            fs,
                            front_index(fr, m2),
                            front_index(fr, mm),
                        ) && #[trigger] admitted@[m2] implies self.compatible(mm, m2) by {
                        assert(cands@.contains(m2 as usize));
                        let q2 = choose|q: int| 0 <= q < cands_len && cands@[q] == m2 as usize;
                        if q2 > qm {
                            assert(precedes(vs, fs, front_index(fr, cands@[qm] as int), front_index(fr, cands@[q2] as int)));
                        } else if q2 == qm {
                        } else {
                            assert(admitted@[cands@[q2] as int]);
                        }
                    }
                }
                if by_priority {
                    assert forall|q2: int| 0 <= q2 < qm && #[trigger] admitted@[cands@[q2] as int] implies self.compatible(mm, cands@[q2] as int) by {
                        let m2 = cands@[q2] as int;
                        assert(precedes(vs, fs, front_index(fr, cands@[q2] as int), front_index(fr, cands@[qm] as int)));
                        assert(fr[m2] is Some);
                        assert(admitted@[m2]);
                    }
                }
            }
        }
        admitted
    }

    /// One controller round: releases the reservations of vehicles that
    /// have left the conflict area, then admits, in priority order, the
    /// front requesting vehicle of each movement when it is compatible with
    /// every reservation held at that moment; finally counts waiting ticks.
    pub fn update<M>(&self, vehicles: &mut Vec<Vehicle<M>>, facts: &Vec<ProgressFacts>)
        requires
            facts@.len() == old(vehicles)@.len(),
            old(vehicles)@.len() * 60 <= u64::MAX,
            all_placed(old(vehicles)@),
        ensures
            self.update_outcome(old(vehicles)@, facts@, final(vehicles)@),
    {
        let ghost vs = vehicles@;
        let ghost fs = facts@;
        let kept = surviving_reservations(vehicles, facts);
        let active = held_movements(vehicles, facts, &kept);
        let pressure = queue_pressures(vehicles, facts, &kept);
        let front = front_candidates(vehicles, facts, &kept);
        let admitted = self.grant_reservations(vehicles, facts, &pressure, &front, active);
        let ghost fr = front@;
        let ghost ad = admitted@;
        let mut i: usize = 0;
        while i < vehicles.len()
            invariant
                i <= vs.len(),
                vehicles@.len() == vs.len(),
                fs == facts@,
                fs.len() == vs.len(),
                fr == front@,
                ad == admitted@,
                kept@.len() == vs.len(),
                ad.len() == MOVEMENT_COUNT,
                all_placed(vs),
                fronts_found(vs, fs, fr),
                forall|k: int| 0 <= k < vs.len() ==> #[trigger] kept@[k] == keeps_reservation(vs[k], fs[k]),
                forall|k: int| 0 <= k < vs.len() ==> same_vehicle(#[trigger] vehicles@[k], vs[k]),
                forall|k: int| i <= k < vs.len() ==> #[trigger] vehicles@[k] == vs[k],
                forall|k: int|
                    0 <= k < i ==> (#[trigger] vehicles@[k]).reserved == (keeps_reservation(vs[k], fs[k]) || (fr[vs[k].movement()]
                        == Some(k as usize) && ad[vs[k].movement()])),
                forall|k: int|
                    0 <= k < i ==> (#[trigger] vehicles@[k]).wait_ticks == next_wait_ticks(vs[k], fs[k], vehicles@[k]),
            decreases vs.len() - i,
        {
            proof {
                assert(vs[i as int].placed());
            }
            let m = vehicles[i].movement_id();
            let newly = match front[m] {
                Some(c) => c == i && admitted[m],
                None => false,
            };
            proof {
                if newly {
                    assert(is_front(vs, fs, i as int));
                    assert(is_requesting(vs[i as int], fs[i as int]));
                }
            }
            let reserved = kept[i] || newly;
            vehicles[i].reserved = reserved;
            if newly {
                vehicles[i].wait_ticks = 0;
            } else if vehicles[i].detected_tick.is_some() && !reserved {
                vehicles[i].wait_ticks = vehicles[i].wait_ticks.saturating_add(1);
            }
            i += 1;
        }
        proof {
            let ws = vehicles@;
            assert forall|k: int|
                0 <= k < vs.len() && (#[trigger] ws[k]).reserved && !keeps_reservation(vs[k], fs[k])
                    implies is_front(vs, fs, k) by {
                assert(vs[k].placed());
                assert(fr[vs[k].movement()] == Some(k as usize));
            }
            assert forall|k: int| #[trigger] is_front(vs, fs, k) implies (ws[k].reserved <==> self.admissible(vs, fs, ws, k)) by {
                lemma_front_unique(vs, fs, fr, k);
                let mk = vs[k].movement();
                assert(vs[k].placed());
                assert(is_requesting(vs[k], fs[k]));
                assert(ws[k].reserved == ad[mk]);
                assert(fr[mk] is Some);
                assert(front_index(fr, mk) == k);
                let via_table = forall|m2: int|
                    #![trigger ad[m2]]
                    0 <= m2 < MOVEMENT_COUNT && fr[m2] is Some && precedes(vs, fs, front_index(fr, m2), front_index(fr, mk))
                        && ad[m2] ==> self.compatible(mk, m2);
                let via_vehicles = forall|j: int|
                    #![trigger is_front(vs, fs, j), ws[j]]
                    is_front(vs, fs, j) && precedes(vs, fs, j, k) && ws[j].reserved ==> self.compatible(
                        vs[k].movement(),
                        vs[j].movement(),
                    );
                if via_table {
                    assert forall|j: int|
                        #![trigger is_front(vs, fs, j), ws[j]]
                        is_front(vs, fs, j) && precedes(vs, fs, j, k) && ws[j].reserved implies self.compatible(
                            vs[k].movement(),
                            vs[j].movement(),
                        ) by {
                        lemma_front_unique(vs, fs, fr, j);
                        assert(vs[j].placed());
                        assert(is_requesting(vs[j], fs[j]));
                        let mj = vs[j].movement();
                        assert(front_index(fr, mj) == j);
                        assert(ad[mj]);
                    }
                }
                if via_vehicles {
                    assert forall|m2: int|
                        0 <= m2 < MOVEMENT_COUNT && fr[m2] is Some && precedes(vs, fs, front_index(fr, m2), front_index(fr, mk))
                            && #[trigger] ad[m2] implies self.compatible(mk, m2) by {
                        let j = front_index(fr, m2);
                        assert(fr[m2] == Some(j as usize));
                        assert(is_front(vs, fs, j) && vs[j].movement() == m2);
                        assert(is_requesting(vs[j], fs[j]));
                        assert(ws[j].reserved);
                    }
                }
            }
        }
    }

    /// The manager's conflict relation is symmetric, and no movement
    /// conflicts with itself.
    pub proof fn conflict_symmetry_law(&self)
        ensures
            forall|a: int, b: int| #[trigger] self.conflicting(a, b) == self.conflicting(b, a),
            forall|a: int| !#[trigger] self.conflicting(a, a),
    {
        self.conflicts.symmetry_law();
    }

    /// Reserved vehicles on different movements never conflict.
    pub open spec fn reservations_compatible<M>(&self, vs: Seq<Vehicle<M>>) -> bool {
        forall|i: int, j: int|
            0 <= i < vs.len() && 0 <= j < vs.len() && (#[trigger] vs[i]).reserved
                && (#[trigger] vs[j]).reserved ==> self.compatible(vs[i].movement(), vs[j].movement())
    }

    /// Safety of admission: an update never leaves two conflicting movements
    /// reserved at the same time. Whatever reservations it keeps or grants
    /// are pairwise compatible, provided the ones held before were.
    pub proof fn update_keeps_reservations_compatible<M>(
        &self,
        vs: Seq<Vehicle<M>>,
        fs: Seq<ProgressFacts>,
        ws: Seq<Vehicle<M>>,
    )
        requires
            all_placed(vs),
            self.reservations_compatible(vs),
            self.update_outcome(vs, fs, ws),
        ensures
            self.reservations_compatible(ws),
    {
        self.conflict_symmetry_law();
        assert forall|i: int, j: int|
            0 <= i < ws.len() && 0 <= j < ws.len() && (#[trigger] ws[i]).reserved
                && (#[trigger] ws[j]).reserved implies self.compatible(ws[i].movement(), ws[j].movement()) by {
            assert(same_vehicle(ws[i], vs[i]));
            assert(same_vehicle(ws[j], vs[j]));
            assert(vs[i].placed() && vs[j].placed());
            let mi = vs[i].movement();
            let mj = vs[j].movement();
            let ki = keeps_reservation(vs[i], fs[i]);
            let kj = keeps_reservation(vs[j], fs[j]);
            if mi != mj {
                if ki && kj {
                    assert(vs[i].reserved && vs[j].reserved);
                } else if !ki && kj {
                    assert(is_front(vs, fs, i));
                    assert(self.admissible(vs, fs, ws, i));
                } else if ki && !kj {
                    assert(is_front(vs, fs, j));
                    assert(self.admissible(vs, fs, ws, j));
                    assert(self.compatible(mj, mi));
                    assert(self.conflicting(mj, mi) == self.conflicting(mi, mj));
                } else {
                    assert(is_front(vs, fs, i) && is_front(vs, fs, j));
                    assert(self.admissible(vs, fs, ws, i));
                    assert(self.admissible(vs, fs, ws, j));
                    if precedes(vs, fs, j, i) {
                        assert(self.compatible(mi, mj));
                    } else {
                        assert(precedes(vs, fs, i, j));
                        assert(self.compatible(mj, mi));
                        assert(self.conflicting(mj, mi) == self.conflicting(mi, mj));
                    }
                }
            }
        }
    }

    /// Reservations go to the front of each queue: a vehicle that gains a
    /// reservation in an update is detected, at its request point and still
    /// before the conflict exit, and no other such unreserved vehicle of the
    /// same movement is further along (has a greater progress rank).
    pub proof fn new_reservation_goes_to_the_front<M>(
        &self,
        vs: Seq<Vehicle<M>>,
        fs: Seq<ProgressFacts>,
        ws: Seq<Vehicle<M>>,
        i: int,
        j: int,
    )
        requires
            self.update_outcome(vs, fs, ws),
            0 <= i < vs.len(),
            ws[i].reserved,
            !vs[i].reserved,
        ensures
            vs[i].detected_tick is Some,
            fs[i].at_request_point,
            !fs[i].past_conflict_exit,
            0 <= j < vs.len() && j != i && vs[j].detected_tick is Some && !vs[j].reserved
                && fs[j].at_request_point && !fs[j].past_conflict_exit && vs[j].origin == vs[i].origin
                && vs[j].route == vs[i].route ==> fs[j].rank <= fs[i].rank,
    {
        assert(same_vehicle(ws[i], vs[i]));
        assert(!keeps_reservation(vs[i], fs[i]));
        assert(is_front(vs, fs, i));
        if 0 <= j < vs.len() && j != i && vs[j].detected_tick is Some && !vs[j].reserved
            && fs[j].at_request_point && !fs[j].past_conflict_exit && vs[j].origin == vs[i].origin
            && vs[j].route == vs[i].route {
            assert(is_requesting(vs[j], fs[j]));
            assert(vs[j].movement() == vs[i].movement());
        }
    }

    /// Non-conflicting movements cross together: a front candidate that is
    /// compatible with every held reservation and with every other front
    /// candidate is admitted, whatever the priority order.
    pub proof fn compatible_candidate_is_admitted<M>(
        &self,
        vs: Seq<Vehicle<M>>,
        fs: Seq<ProgressFacts>,
        ws: Seq<Vehicle<M>>,
        i: int,
    )
        requires
            self.update_outcome(vs, fs, ws),
            is_front(vs, fs, i),
            self.clear_of_held(vs, fs, vs[i].movement()),
            forall|j: int| #[trigger] is_front(vs, fs, j) ==> self.compatible(vs[i].movement(), vs[j].movement()),
        ensures
            ws[i].reserved,
    {
        assert(self.admissible(vs, fs, ws, i));
    }

    /// A reservation is released once its vehicle has left the conflict
    /// area: after an update such a vehicle holds no reservation, old or new.
    pub proof fn leaving_releases_reservation<M>(
        &self,
        vs: Seq<Vehicle<M>>,
        fs: Seq<ProgressFacts>,
        ws: Seq<Vehicle<M>>,
        i: int,
    )
        requires
            self.update_outcome(vs, fs, ws),
            0 <= i < vs.len(),
            fs[i].past_conflict_exit,
        ensures
            !ws[i].reserved,
    {
    }

    /// A lone vehicle is admitted as soon as it reaches its request point,
    /// so on an empty intersection it never has to slow down for a stop.
    pub proof fn lone_vehicle_is_admitted<M>(
        &self,
        vs: Seq<Vehicle<M>>,
        fs: Seq<ProgressFacts>,
        ws: Seq<Vehicle<M>>,
    )
        requires
            self.update_outcome(vs, fs, ws),
            vs.len() == 1,
            is_requesting(vs[0], fs[0]),
        ensures
            ws[0].reserved,
    {
        assert(is_front(vs, fs, 0));
        assert(self.clear_of_held(vs, fs, vs[0].movement()));
        assert(self.admissible(vs, fs, ws, 0));
    }

    /// Priority is honoured: the highest-priority front candidate is
    /// admitted whenever no surviving reservation conflicts with it.
    pub proof fn top_candidate_is_admitted<M>(
        &self,
        vs: Seq<Vehicle<M>>,
        fs: Seq<ProgressFacts>,
        ws: Seq<Vehicle<M>>,
        i: int,
    )
        requires
            self.update_outcome(vs, fs, ws),
            is_front(vs, fs, i),
            self.clear_of_held(vs, fs, vs[i].movement()),
            forall|j: int| #[trigger] is_front(vs, fs, j) && j != i ==> precedes(vs, fs, i, j),
        ensures
            ws[i].reserved,
    {
        assert forall|j: int|
            #![trigger is_front(vs, fs, j), ws[j]]
            is_front(vs, fs, j) && precedes(vs, fs, j, i) && ws[j].reserved implies self.compatible(
                vs[i].movement(),
                vs[j].movement(),
            ) by {
            if j != i {
                assert(precedes(vs, fs, i, j));
            }
        }
        assert(self.admissible(vs, fs, ws, i));
    }

    pub fn new(pair_conflicts: &Vec<Vec<bool>>) -> (manager: Self)
        requires
            movement_table(pair_conflicts@),
        ensures
            forall|a: int, b: int|
                0 <= a < MOVEMENT_COUNT && 0 <= b < MOVEMENT_COUNT ==> #[trigger] manager.conflicting(
                    a,
                    b,
                ) == pair_entry(pair_conflicts@, a, b),
    {
        IntersectionManager { conflicts: build_conflict_matrix(pair_conflicts) }
    }

    /// The speed level a vehicle is steered towards before the braking and
    /// following limits apply.
    pub fn target_speed<M>(
        &self,
        vehicle: &Vehicle<M>,
        past_conflict_entry: bool,
        band: StopBand,
    ) -> (level: SpeedLevel)
        ensures
            level == if vehicle.detected_tick is None || vehicle.reserved || past_conflict_entry {
                SpeedLevel::Cruise
            } else {
                match band {
                    StopBand::Far => SpeedLevel::Cruise,
                    StopBand::Near => SpeedLevel::Slow,
                    StopBand::AtStop => SpeedLevel::Stop,
                }
            },
    {
        if vehicle.detected_tick.is_none() || vehicle.reserved || past_conflict_entry {
            return SpeedLevel::Cruise;
        }
        match band {
            StopBand::Far => SpeedLevel::Cruise,
            StopBand::Near => SpeedLevel::Slow,
            StopBand::AtStop => SpeedLevel::Stop,
        }
    }
}

} // verus!
