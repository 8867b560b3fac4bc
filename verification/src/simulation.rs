//! The discrete state of the fixed-timestep simulation: clock, vehicle
//! records, reservation manager and counters, with the decisions that the
//! step, spawn and removal logic take on them.

use crate::controller::{all_placed, IntersectionManager, ProgressFacts, SpeedLevel, StopBand};
use crate::geometry::{
    movement_of, movement_origin, movement_route, movement_table, pair_entry, route_at,
    AUTO_SPAWN_TICKS, MOVEMENT_COUNT, ORIGIN_COUNT,
};
use crate::random::{shuffle, thread_rng};
use crate::stats::{
    close_call_pairs, close_call_sample, colliding_pairs, collision_sample, distinct_pairs,
    new_close_calls, proximity_counting_law, new_collisions, pair_key, saturated, ProximitySample, Statistics,
};
use crate::vehicle::{visual_of_id, Vehicle};
use vstd::prelude::*;

verus! {

/// What the load statistics need to know of one vehicle on the road.
#[derive(Clone, Copy, Debug)]
pub struct LaneSample {
    pub movement: usize,
    /// The vehicle has not yet reached the conflict area.
    pub before_conflict: bool,
    /// The vehicle moves at slow speed or less.
    pub slow: bool,
}

/// Vehicles of movement `m` among the first `k` samples that are still
/// before the conflict area (and, with `queued_only`, slow).
pub open spec fn lane_count(s: Seq<LaneSample>, m: int, queued_only: bool, k: int) -> nat
    decreases k,
{
    if k <= 0 {
        0
    } else {
        lane_count(s, m, queued_only, k - 1) + if s[k - 1].before_conflict && s[k - 1].movement == m
            && (!queued_only || s[k - 1].slow) {
            1nat
        } else {
            0nat
        }
    }
}

/// The largest `lane_count` over the movements below `upto`.
pub open spec fn busiest_lane(s: Seq<LaneSample>, queued_only: bool, upto: int) -> nat
    decreases upto,
{
    if upto <= 0 {
        0
    } else {
        let c = lane_count(s, upto - 1, queued_only, s.len() as int);
        let b = busiest_lane(s, queued_only, upto - 1);
        if c > b {
            c
        } else {
            b
        }
    }
}

proof fn lemma_lane_count_bounded(s: Seq<LaneSample>, m: int, queued_only: bool, k: int)
    requires
        0 <= k,
    ensures
        lane_count(s, m, queued_only, k) <= k,
        lane_count(s, m, true, k) <= lane_count(s, m, false, k),
    decreases k,
{
    if k > 0 {
        lemma_lane_count_bounded(s, m, queued_only, k - 1);
    }
}

proof fn lemma_busiest_lane(s: Seq<LaneSample>, queued_only: bool, upto: int)
    requires
        0 <= upto,
    ensures
        forall|m: int| 0 <= m < upto ==> #[trigger] lane_count(s, m, queued_only, s.len() as int)
            <= busiest_lane(s, queued_only, upto),
        upto > 0 ==> exists|m: int|
            0 <= m < upto && #[trigger] lane_count(s, m, queued_only, s.len() as int)
                == busiest_lane(s, queued_only, upto),
        busiest_lane(s, true, upto) <= busiest_lane(s, false, upto),
    decreases upto,
{
    if upto > 0 {
        lemma_busiest_lane(s, queued_only, upto - 1);
        lemma_lane_count_bounded(s, upto - 1, queued_only, s.len() as int);
        let c = lane_count(s, upto - 1, queued_only, s.len() as int);
        if upto - 1 > 0 {
            let w = choose|m: int|
                0 <= m < upto - 1 && #[trigger] lane_count(s, m, queued_only, s.len() as int)
                    == busiest_lane(s, queued_only, upto - 1);
            assert(lane_count(s, w, queued_only, s.len() as int) == busiest_lane(s, queued_only, upto - 1));
        }
        assert(lane_count(s, upto - 1, queued_only, s.len() as int) == c);
    }
}

/// The busiest lane is as loaded as some lane and at least as loaded as
/// every lane, and its slow queue never exceeds its approaching load.
pub proof fn busiest_lane_law(s: Seq<LaneSample>, queued_only: bool)
    ensures
        forall|m: int| 0 <= m < MOVEMENT_COUNT ==> #[trigger] lane_count(s, m, queued_only, s.len() as int)
            <= busiest_lane(s, queued_only, MOVEMENT_COUNT as int),
        exists|m: int|
            0 <= m < MOVEMENT_COUNT && #[trigger] lane_count(s, m, queued_only, s.len() as int)
                == busiest_lane(s, queued_only, MOVEMENT_COUNT as int),
        busiest_lane(s, true, MOVEMENT_COUNT as int) <= busiest_lane(s, false, MOVEMENT_COUNT as int),
{
    lemma_busiest_lane(s, queued_only, MOVEMENT_COUNT as int);
}

proof fn lemma_lane_count_filter(
    s: Seq<LaneSample>,
    m: int,
    queued_only: bool,
    k: int,
    in_lane: spec_fn(LaneSample) -> bool,
)
    requires
        0 <= k <= s.len(),
        forall|x: LaneSample|
            #[trigger] in_lane(x) == (x.before_conflict && x.movement == m && (!queued_only || x.slow)),
    ensures
        lane_count(s, m, queued_only, k) == s.take(k).filter(in_lane).len(),
    decreases k,
{
    reveal(Seq::filter);
    if k > 0 {
        lemma_lane_count_filter(s, m, queued_only, k - 1, in_lane);
        let t = s.take(k);
        assert(t.drop_last() =~= s.take(k - 1));
        assert(t.last() == s[k - 1]);
        assert(in_lane(s[k - 1]) == (s[k - 1].before_conflict && s[k - 1].movement == m && (!queued_only
            || s[k - 1].slow)));
    } else {
        assert(s.take(0) =~= Seq::<LaneSample>::empty());
    }
}

/// The busiest lane's load counts the samples of one movement lane: it is
/// at least the number of before-conflict samples (slow ones, with
/// `queued_only`) of any movement `m`, and it is that number for some
/// movement `busiest`.
pub proof fn busiest_lane_counts_one_movement(s: Seq<LaneSample>, queued_only: bool, m: int) -> (busiest: int)
    requires
        0 <= m < MOVEMENT_COUNT,
    ensures
        s.filter(|x: LaneSample| x.before_conflict && x.movement == m && (!queued_only || x.slow)).len()
            <= busiest_lane(s, queued_only, MOVEMENT_COUNT as int),
        0 <= busiest < MOVEMENT_COUNT,
        s.filter(
            |x: LaneSample| x.before_conflict && x.movement == busiest && (!queued_only || x.slow),
        ).len() == busiest_lane(s, queued_only, MOVEMENT_COUNT as int),
{
    lemma_busiest_lane(s, queued_only, MOVEMENT_COUNT as int);
    assert(s.take(s.len() as int) =~= s);
    let w = choose|w: int|
        0 <= w < MOVEMENT_COUNT && #[trigger] lane_count(s, w, queued_only, s.len() as int) == busiest_lane(
            s,
            queued_only,
            MOVEMENT_COUNT as int,
        );
    assert(lane_count(s, w, queued_only, s.len() as int) == busiest_lane(s, queued_only, MOVEMENT_COUNT as int));
    assert(lane_count(s, m, queued_only, s.len() as int) <= busiest_lane(s, queued_only, MOVEMENT_COUNT as int));
    let of_m = |x: LaneSample| x.before_conflict && x.movement == m && (!queued_only || x.slow);
    lemma_lane_count_filter(s, m, queued_only, s.len() as int, of_m);
    let of_w = |x: LaneSample| x.before_conflict && x.movement == w && (!queued_only || x.slow);
    lemma_lane_count_filter(s, w, queued_only, s.len() as int, of_w);
    w
}

/// Peak slow queue in one lane and peak number of vehicles approaching in
/// one lane, over the vehicles described by `samples`.
pub fn lane_load_peaks(samples: &Vec<LaneSample>) -> (peaks: (usize, usize))
    requires
        forall|k: int| 0 <= k < samples@.len() ==> (#[trigger] samples@[k]).movement < MOVEMENT_COUNT,
    ensures
        peaks.0 == busiest_lane(samples@, true, MOVEMENT_COUNT as int),
        peaks.1 == busiest_lane(samples@, false, MOVEMENT_COUNT as int),
{
    let ghost s = samples@;
    let mut queued: Vec<usize> = vec![0; MOVEMENT_COUNT];
    let mut approaching: Vec<usize> = vec![0; MOVEMENT_COUNT];
    let mut k: usize = 0;
    while k < samples.len()
        invariant
            k <= s.len(),
            s == samples@,
            forall|j: int| 0 <= j < s.len() ==> (#[trigger] s[j]).movement < MOVEMENT_COUNT,
            queued@.len() == MOVEMENT_COUNT,
            approaching@.len() == MOVEMENT_COUNT,
            forall|m: int| 0 <= m < MOVEMENT_COUNT ==> #[trigger] queued@[m] == lane_count(s, m, true, k as int),
            forall|m: int| 0 <= m < MOVEMENT_COUNT ==> #[trigger] approaching@[m] == lane_count(s, m, false, k as int),
        decreases s.len() - k,
    {
        let sample = samples[k];
        proof {
            lemma_lane_count_bounded(s, sample.movement as int, true, k as int);
            lemma_lane_count_bounded(s, sample.movement as int, false, k as int);
        }
        if sample.before_conflict {
            let m = sample.movement;
            approaching[m] = approaching[m] + 1;
            if sample.slow {
                queued[m] = queued[m] + 1;
            }
        }
        k += 1;
    }
    let mut peak_queue: usize = 0;
    let mut peak_approach: usize = 0;
    let mut m: usize = 0;
    while m < MOVEMENT_COUNT
        invariant
            m <= MOVEMENT_COUNT,
            queued@.len() == MOVEMENT_COUNT,
            approaching@.len() == MOVEMENT_COUNT,
            forall|mm: int| 0 <= mm < MOVEMENT_COUNT ==> #[trigger] queued@[mm] == lane_count(s, mm, true, s.len() as int),
            forall|mm: int| 0 <= mm < MOVEMENT_COUNT ==> #[trigger] approaching@[mm] == lane_count(s, mm, false, s.len() as int),
            peak_queue == busiest_lane(s, true, m as int),
            peak_approach == busiest_lane(s, false, m as int),
        decreases MOVEMENT_COUNT - m,
    {
        if queued[m] > peak_queue {
            peak_queue = queued[m];
        }
        if approaching[m] > peak_approach {
            peak_approach = approaching[m];
        }
        m += 1;
    }
    (peak_queue, peak_approach)
}

/// The (first, second) ids of every pair of vehicles `i < j` whose first
/// vehicle is among the first `rows`, row by row: (0, 1), (0, 2), ...,
/// (1, 2), ...
pub open spec fn id_pairs_upto<M>(vs: Seq<Vehicle<M>>, rows: int) -> Seq<(u64, u64)>
    decreases rows,
{
    if rows <= 0 || rows > vs.len() {
        Seq::empty()
    } else {
        id_pairs_upto(vs, rows - 1) + Seq::new(
            (vs.len() - rows) as nat,
            |t: int| (vs[rows - 1].id, vs[rows + t].id),
        )
    }
}

/// The proximity samples are the pairs of vehicles `i < j`, each once, in
/// row order.
pub open spec fn pairs_of<M>(samples: Seq<ProximitySample>, vs: Seq<Vehicle<M>>) -> bool {
    let ids = id_pairs_upto(vs, vs.len() as int);
    &&& samples.len() == ids.len()
    &&& forall|k: int|
        0 <= k < samples.len() ==> ((#[trigger] samples[k]).first_id, samples[k].second_id) == ids[k]
}

/// No two vehicles share an id.
pub open spec fn distinct_ids<M>(vs: Seq<Vehicle<M>>) -> bool {
    forall|i: int, j: int| 0 <= i < j < vs.len() ==> (#[trigger] vs[i]).id != (#[trigger] vs[j]).id
}

/// The pair of ids, smaller first.
spec fn unordered(p: (u64, u64)) -> (u64, u64) {
    if p.0 < p.1 {
        p
    } else {
        (p.1, p.0)
    }
}

/// `p` is the pair of ids of two vehicles `i < j`, the first among the first `rows`.
spec fn drawn_from<M>(vs: Seq<Vehicle<M>>, rows: int, p: (u64, u64)) -> bool {
    exists|i: int, j: int|
        #![trigger vs[i], vs[j]]
        0 <= i < rows && i < j < vs.len() && p == (vs[i].id, vs[j].id)
}

proof fn lemma_id_pairs_distinct<M>(vs: Seq<Vehicle<M>>, rows: int)
    requires
        distinct_ids(vs),
        0 <= rows <= vs.len(),
    ensures
        forall|k: int|
            0 <= k < id_pairs_upto(vs, rows).len() ==> drawn_from(
                vs,
                rows,
                #[trigger] id_pairs_upto(vs, rows)[k],
            ),
        forall|a: int, b: int|
            0 <= a < b < id_pairs_upto(vs, rows).len() ==> unordered(#[trigger] id_pairs_upto(vs, rows)[a])
                != unordered(#[trigger] id_pairs_upto(vs, rows)[b]),
    decreases rows,
{
    if rows > 0 {
        lemma_id_pairs_distinct(vs, rows - 1);
        let before = id_pairs_upto(vs, rows - 1);
        let r = rows - 1;
        let row = Seq::new((vs.len() - rows) as nat, |t: int| (vs[rows - 1].id, vs[rows + t].id));
        let all = id_pairs_upto(vs, rows);
        assert(all == before + row);
        assert forall|k: int| 0 <= k < all.len() implies drawn_from(vs, rows, #[trigger] all[k]) by {
            if k < before.len() {
                assert(all[k] == before[k]);
                assert(drawn_from(vs, rows - 1, before[k]));
                let (i, j) = choose|i: int, j: int|
                    #![trigger vs[i], vs[j]]
                    0 <= i < rows - 1 && i < j < vs.len() && before[k] == (vs[i].id, vs[j].id);
                assert(all[k] == (vs[i].id, vs[j].id));
            } else {
                let t = k - before.len();
                assert(all[k] == row[t]);
                assert(all[k] == (vs[r].id, vs[rows + t].id));
            }
        }
        assert forall|a: int, b: int| 0 <= a < b < all.len() implies unordered(#[trigger] all[a])
            != unordered(#[trigger] all[b]) by {
            if b < before.len() {
                assert(all[a] == before[a] && all[b] == before[b]);
            } else if a < before.len() {
                assert(all[a] == before[a]);
                assert(drawn_from(vs, rows - 1, before[a]));
                let (i, j) = choose|i: int, j: int|
                    #![trigger vs[i], vs[j]]
                    0 <= i < rows - 1 && i < j < vs.len() && before[a] == (vs[i].id, vs[j].id);
                let t = b - before.len();
                assert(all[b] == (vs[r].id, vs[rows + t].id));
                let jb = rows + t;
                // i < r < jb and i < j: the pairs {i, j} and {r, jb} differ.
                assert(vs[i].id != vs[r].id);
                assert(vs[i].id != vs[jb].id);
            } else {
                let ta = a - before.len();
                let tb = b - before.len();
                assert(all[a] == (vs[r].id, vs[rows + ta].id));
                assert(all[b] == (vs[r].id, vs[rows + tb].id));
                assert(vs[rows + ta].id != vs[rows + tb].id);
                assert(vs[r].id != vs[rows + tb].id);
                assert(vs[r].id != vs[rows + ta].id);
            }
        }
    }
}

/// Proximity samples of vehicles with distinct ids never repeat a pair.
pub proof fn pair_samples_are_distinct<M>(samples: Seq<ProximitySample>, vs: Seq<Vehicle<M>>)
    requires
        pairs_of(samples, vs),
        distinct_ids(vs),
    ensures
        distinct_pairs(samples),
{
    let ids = id_pairs_upto(vs, vs.len() as int);
    lemma_id_pairs_distinct(vs, vs.len() as int);
    assert forall|j: int, k: int| 0 <= j < k < samples.len() implies pair_key(#[trigger] samples[j])
        != pair_key(#[trigger] samples[k]) by {
        assert(unordered(ids[j]) != unordered(ids[k]));
        assert((samples[j].first_id, samples[j].second_id) == ids[j]);
        assert((samples[k].first_id, samples[k].second_id) == ids[k]);
    }
}

/// `loads` describes `vs` vehicle by vehicle, in the same order.
pub open spec fn lanes_of<M>(loads: Seq<LaneSample>, vs: Seq<Vehicle<M>>) -> bool {
    &&& loads.len() == vs.len()
    &&& forall|k: int| 0 <= k < loads.len() ==> (#[trigger] loads[k]).movement == vs[k].movement()
}

proof fn lemma_lane_movements<M>(loads: Seq<LaneSample>, vs: Seq<Vehicle<M>>)
    requires
        all_placed(vs),
        lanes_of(loads, vs),
    ensures
        forall|k: int| 0 <= k < loads.len() ==> (#[trigger] loads[k]).movement < MOVEMENT_COUNT,
{
    assert forall|k: int| 0 <= k < loads.len() implies (#[trigger] loads[k]).movement < MOVEMENT_COUNT by {
        assert(vs[k].placed());
    }
}

/// `value` raised to `candidate` when that is larger.
pub open spec fn raised(value: usize, candidate: usize) -> usize {
    if candidate > value {
        candidate
    } else {
        value
    }
}

/// The counters of `new` are those of `old` with one spawn counted and the
/// peaks raised to the given loads.
pub open spec fn spawn_counted(old: Statistics, new: Statistics, on_road: usize, loads: Seq<LaneSample>) -> bool {
    &&& new.spawned == saturated(old.spawned, 1)
    &&& new.peak_vehicles == raised(old.peak_vehicles, on_road)
    &&& new.peak_lane_queue == raised(old.peak_lane_queue, busiest_lane(loads, true, MOVEMENT_COUNT as int) as usize)
    &&& new.peak_approach_vehicles == raised(old.peak_approach_vehicles, busiest_lane(loads, false, MOVEMENT_COUNT as int) as usize)
    &&& new.passed == old.passed
    &&& new.rejected_spawns == old.rejected_spawns
    &&& new.close_calls == old.close_calls
    &&& new.collisions == old.collisions
    &&& new.emergency_clamps == old.emergency_clamps
    &&& forall|p: (u64, u64)| new.collision_pairs.has(p) == old.collision_pairs.has(p)
    &&& forall|p: (u64, u64)| new.close_pairs.has(p) == old.close_pairs.has(p)
}

/// The counters of `new` are those of `old` with one rejected spawn counted.
pub open spec fn rejection_counted(old: Statistics, new: Statistics) -> bool {
    &&& new.rejected_spawns == saturated(old.rejected_spawns, 1)
    &&& new.spawned == old.spawned
    &&& new.passed == old.passed
    &&& new.close_calls == old.close_calls
    &&& new.collisions == old.collisions
    &&& new.emergency_clamps == old.emergency_clamps
    &&& new.peak_vehicles == old.peak_vehicles
    &&& new.peak_lane_queue == old.peak_lane_queue
    &&& new.peak_approach_vehicles == old.peak_approach_vehicles
    &&& forall|p: (u64, u64)| new.collision_pairs.has(p) == old.collision_pairs.has(p)
    &&& forall|p: (u64, u64)| new.close_pairs.has(p) == old.close_pairs.has(p)
}

/// The vehicle record a spawn of movement `m` creates.
pub open spec fn spawned_vehicle<M>(id: u64, m: int, motion: M) -> Vehicle<M> {
    Vehicle {
        id,
        origin: (m / 3) as usize,
        route: route_at((m % 3) as nat),
        visual: visual_of_id(id),
        detected_tick: None,
        wait_ticks: 0,
        reserved: false,
        motion,
    }
}

/// The lane sample of a vehicle that has just been spawned on movement `m`:
/// at the start of its path, before the conflict area, at cruise speed.
pub open spec fn entry_sample(m: int) -> LaneSample {
    LaneSample { movement: m as usize, before_conflict: true, slow: false }
}

/// The vehicles of `vs` whose flag in `done` is unset, in order.
pub open spec fn kept_vehicles<M>(vs: Seq<Vehicle<M>>, done: Seq<bool>) -> Seq<Vehicle<M>>
    decreases vs.len(),
{
    if vs.len() == 0 {
        Seq::empty()
    } else {
        let k = vs.len() - 1;
        kept_vehicles(vs.take(k), done.take(k)) + if done[k] {
            Seq::empty()
        } else {
            seq![vs[k]]
        }
    }
}

/// The vehicles of `vs` whose flag in `done` is set, in order.
pub open spec fn finished_vehicles<M>(vs: Seq<Vehicle<M>>, done: Seq<bool>) -> Seq<Vehicle<M>>
    decreases vs.len(),
{
    if vs.len() == 0 {
        Seq::empty()
    } else {
        let k = vs.len() - 1;
        finished_vehicles(vs.take(k), done.take(k)) + if done[k] {
            seq![vs[k]]
        } else {
            Seq::empty()
        }
    }
}

/// Removal loses no vehicle: every vehicle is either kept or finished.
pub proof fn removal_partitions_vehicles<M>(vs: Seq<Vehicle<M>>, done: Seq<bool>)
    requires
        done.len() == vs.len(),
    ensures
        kept_vehicles(vs, done).len() + finished_vehicles(vs, done).len() == vs.len(),
    decreases vs.len(),
{
    if vs.len() > 0 {
        let k = vs.len() - 1;
        removal_partitions_vehicles(vs.take(k), done.take(k));
    }
}

/// Every vehicle has an id below the next one to hand out, and no two
/// vehicles share an id.
pub open spec fn ids_issued_uniquely<M>(vs: Seq<Vehicle<M>>, next_id: u64) -> bool {
    &&& forall|i: int| 0 <= i < vs.len() ==> (#[trigger] vs[i]).id < next_id
    &&& forall|i: int, j: int| 0 <= i < j < vs.len() ==> (#[trigger] vs[i]).id != (#[trigger] vs[j]).id
}

/// The simulation state. Every field is public because the contracts of the
/// public methods read each of them, and Verus lets a public contract read the
/// fields of a struct only when none of its fields is private. Vehicle ids
/// stay unique across spawns (`spawn_keeps_ids_unique`) as long as callers
/// leave `vehicles` and `next_vehicle_id` to these methods.
pub struct Sim<P, M> {
    /// The twelve movement paths, which the controller never reads.
    pub paths: P,
    pub vehicles: Vec<Vehicle<M>>,
    pub stats: Statistics,
    pub manager: IntersectionManager,
    pub tick: u64,
    pub next_vehicle_id: u64,
}

impl<P, M> Sim<P, M> {
    /// `new` is `old` after a spawn of movement `m` with motion `motion`,
    /// where `loads` describes the vehicles that were already on the road.
    pub open spec fn spawned_into(self, new: Self, m: int, motion: M, loads: Seq<LaneSample>) -> bool {
        &&& new.vehicles@ == self.vehicles@.push(spawned_vehicle(self.next_vehicle_id, m, motion))
        &&& new.next_vehicle_id == if self.next_vehicle_id == u64::MAX {
            u64::MAX
        } else {
            (self.next_vehicle_id + 1) as u64
        }
        &&& spawn_counted(self.stats, new.stats, new.vehicles@.len() as usize, loads.push(entry_sample(m)))
        &&& new.paths == self.paths
        &&& new.manager == self.manager
        &&& new.tick == self.tick
    }

    /// `new` is `old` after a rejected spawn request.
    pub open spec fn rejected_into(self, new: Self) -> bool {
        &&& new.vehicles@ == self.vehicles@
        &&& new.next_vehicle_id == self.next_vehicle_id
        &&& rejection_counted(self.stats, new.stats)
        &&& new.paths == self.paths
        &&& new.manager == self.manager
        &&& new.tick == self.tick
    }

    pub fn new(paths: P, pair_conflicts: &Vec<Vec<bool>>) -> (sim: Self)
        requires
            movement_table(pair_conflicts@),
        ensures
            sim.paths == paths,
            sim.vehicles@.len() == 0,
            sim.stats.fresh(),
            sim.tick == 0,
            sim.next_vehicle_id == 1,
            forall|a: int, b: int|
                0 <= a < MOVEMENT_COUNT && 0 <= b < MOVEMENT_COUNT ==> #[trigger] sim.manager.conflicting(
                    a,
                    b,
                ) == pair_entry(pair_conflicts@, a, b),
    {
        Sim {
            paths,
            vehicles: Vec::new(),
            stats: Statistics::new(),
            manager: IntersectionManager::new(pair_conflicts),
            tick: 0,
            next_vehicle_id: 1,
        }
    }

    pub fn tick(&self) -> (t: u64)
        ensures
            t == self.tick,
    {
        self.tick
    }

    /// Automatic spawning fires every `AUTO_SPAWN_TICKS` ticks, never at
    /// tick zero.
    pub fn auto_spawn_due(&self) -> (due: bool)
        ensures
            due == (self.tick > 0 && self.tick % AUTO_SPAWN_TICKS == 0),
    {
        self.tick > 0 && self.tick % AUTO_SPAWN_TICKS == 0
    }

    /// Spawns the first movement of `order` that has an offer; counts a
    /// rejection when none has. `spawn_from` and `spawn_random` call it
    /// with a shuffled order.
    pub fn spawn_first(&mut self, order: &Vec<usize>, offers: Vec<Option<M>>, loads: &Vec<LaneSample>) -> (spawned: bool)
        requires
            offers@.len() == MOVEMENT_COUNT,
            forall|q: int| 0 <= q < order@.len() ==> #[trigger] order@[q] < MOVEMENT_COUNT,
            all_placed(old(self).vehicles@),
            lanes_of(loads@, old(self).vehicles@),
        ensures
            spawned <==> exists|q: int| 0 <= q < order@.len() && (#[trigger] offers@[order@[q] as int]) is Some,
            spawned ==> exists|q: int|
                0 <= q < order@.len() && (#[trigger] offers@[order@[q] as int]) is Some && (forall|q2: int|
                    0 <= q2 < q ==> (#[trigger] offers@[order@[q2] as int]) is None) && old(self).spawned_into(
                    *final(self),
                    order@[q] as int,
                    offers@[order@[q] as int].unwrap(),
                    loads@,
                ),
            !spawned ==> old(self).rejected_into(*final(self)),
    {
        proof {
            lemma_lane_movements(loads@, self.vehicles@);
        }
        let ghost offered = offers@;
        let mut remaining = offers;
        let mut q: usize = 0;
        while q < order.len()
            invariant
                q <= order@.len(),
                remaining@ == offered,
                offered == offers@,
                offered.len() == MOVEMENT_COUNT,
                forall|j: int| 0 <= j < order@.len() ==> #[trigger] order@[j] < MOVEMENT_COUNT,
                forall|j: int| 0 <= j < q ==> (#[trigger] offered[order@[j] as int]) is None,
                forall|k: int| 0 <= k < loads@.len() ==> (#[trigger] loads@[k]).movement < MOVEMENT_COUNT,
                *self == *old(self),
            decreases order@.len() - q,
        {
            let m = order[q];
            let offer = remaining[m].take();
            match offer {
                Some(motion) => {
                    let id = self.next_vehicle_id;
                    let origin = movement_origin(m);
                    let route = movement_route(m);
                    proof {
                        assert(movement_of(origin as int, route) == m);
                    }
                    let vehicle = Vehicle::new(id, origin, route, motion);
                    self.next_vehicle_id = self.next_vehicle_id.saturating_add(1);
                    self.vehicles.push(vehicle);
                    self.stats.spawned = self.stats.spawned.saturating_add(1);
                    let mut all_loads = loads.clone();
                    all_loads.push(LaneSample { movement: m, before_conflict: true, slow: false });
                    proof {
                        assert(all_loads@ =~= loads@.push(entry_sample(m as int)));
                        assert forall|k: int| 0 <= k < all_loads@.len() implies (#[trigger] all_loads@[k]).movement < MOVEMENT_COUNT by {
                            if k < loads@.len() {
                                assert(all_loads@[k] == loads@[k]);
                            }
                        }
                    }
                    let (peak_queue, peak_approach) = lane_load_peaks(&all_loads);
                    self.stats.update_peaks(self.vehicles.len(), peak_queue, peak_approach);
                    proof {
                        assert(self.vehicles@ =~= old(self).vehicles@.push(spawned_vehicle(old(self).next_vehicle_id, m as int, motion)));
                        assert(offered[order@[q as int] as int] is Some);

                    }
                    return true;
                },
                None => {},
            }
            q += 1;
        }
        self.stats.rejected_spawns = self.stats.rejected_spawns.saturating_add(1);
        proof {
            assert forall|j: int| 0 <= j < order@.len() implies (#[trigger] offered[order@[j] as int]) is None by {}
        }
        false
    }

    /// A spawn request from `origin`: the three routes of that origin are
    /// tried in random order and the first one with an offer is spawned.
    /// `offers[m]` holds the initial motion of a vehicle on movement `m`
    /// when its spawn position is clear, and `loads` describes the vehicles
    /// already on the road. An origin outside the four is ignored.
    pub fn spawn_from(&mut self, origin: usize, offers: Vec<Option<M>>, loads: &Vec<LaneSample>) -> (spawned: bool)
        requires
            offers@.len() == MOVEMENT_COUNT,
            all_placed(old(self).vehicles@),
            lanes_of(loads@, old(self).vehicles@),
        ensures
            origin >= ORIGIN_COUNT ==> !spawned && *final(self) == *old(self),
            origin < ORIGIN_COUNT ==> (spawned <==> exists|r: int| 0 <= r < 3 && (#[trigger] offers@[origin * 3 + r]) is Some),
            spawned ==> exists|r: int|
                0 <= r < 3 && (#[trigger] offers@[origin * 3 + r]) is Some && old(self).spawned_into(
                    *final(self),
                    origin * 3 + r,
                    offers@[origin * 3 + r].unwrap(),
                    loads@,
                ),
            origin < ORIGIN_COUNT && !spawned ==> old(self).rejected_into(*final(self)),
    {
        if origin >= ORIGIN_COUNT {
            return false;
        }
        let base = origin * 3;
        let mut order: Vec<usize> = Vec::new();
        order.push(base);
        order.push(base + 1);
        order.push(base + 2);
        let ghost initial = order@;
        proof {
            assert(initial[0] == base && initial[1] == base + 1 && initial[2] == base + 2);
        }
        let mut rng = thread_rng();
        shuffle(&mut order, &mut rng);
        proof {
            assert forall|x: usize|
                #![trigger order@.contains(x)]
                #![trigger initial.contains(x)]
                order@.contains(x) <==> initial.contains(x) by {
                vstd::seq_lib::to_multiset_contains(order@, x);
                vstd::seq_lib::to_multiset_contains(initial, x);
            }
            assert forall|q: int| 0 <= q < order@.len() implies #[trigger] order@[q] < MOVEMENT_COUNT by {
                assert(order@.contains(order@[q]));
                assert(initial.contains(order@[q]));
                let k = choose|k: int| 0 <= k < initial.len() && initial[k] == order@[q];
            }
            assert forall|r: int| 0 <= r < 3 implies #[trigger] initial[r] == (base + r) as usize by {}
        }
        let spawned = self.spawn_first(&order, offers, loads);
        proof {
            if spawned {
                let q = choose|q: int|
                    0 <= q < order@.len() && (#[trigger] offers@[order@[q] as int]) is Some && (forall|q2: int|
                        0 <= q2 < q ==> (#[trigger] offers@[order@[q2] as int]) is None) && old(self).spawned_into(
                        *self,
                        order@[q] as int,
                        offers@[order@[q] as int].unwrap(),
                        loads@,
                    );
                assert(order@.contains(order@[q]));
                assert(initial.contains(order@[q]));
                let k = choose|k: int| 0 <= k < initial.len() && initial[k] == order@[q];
                assert(offers@[origin * 3 + k] is Some);
            } else {
                assert forall|r: int| 0 <= r < 3 implies (#[trigger] offers@[origin * 3 + r]) is None by {
                    assert(initial[r] == (base + r) as usize);
                    assert(initial.contains((base + r) as usize));
                    assert(order@.contains((base + r) as usize));
                    let q = choose|q: int| 0 <= q < order@.len() && order@[q] == (base + r) as usize;
                    assert(offers@[order@[q] as int] is None);
                }
            }
        }
        spawned
    }

    /// A random spawn request: all twelve movements are tried in random
    /// order and the first one with an offer is spawned.
    pub fn spawn_random(&mut self, offers: Vec<Option<M>>, loads: &Vec<LaneSample>) -> (spawned: bool)
        requires
            offers@.len() == MOVEMENT_COUNT,
            all_placed(old(self).vehicles@),
            lanes_of(loads@, old(self).vehicles@),
        ensures
            spawned <==> exists|m: int| 0 <= m < MOVEMENT_COUNT && (#[trigger] offers@[m]) is Some,
            spawned ==> exists|m: int|
                0 <= m < MOVEMENT_COUNT && (#[trigger] offers@[m]) is Some && old(self).spawned_into(
                    *final(self),
                    m,
                    offers@[m].unwrap(),
                    loads@,
                ),
            !spawned ==> old(self).rejected_into(*final(self)),
    {
        let mut order: Vec<usize> = Vec::new();
        let mut m: usize = 0;
        while m < MOVEMENT_COUNT
            invariant
                m <= MOVEMENT_COUNT,
                order@.len() == m,
                forall|q: int| 0 <= q < m ==> #[trigger] order@[q] == q,
            decreases MOVEMENT_COUNT - m,
        {
            order.push(m);
            m += 1;
        }
        let ghost initial = order@;
        let mut rng = thread_rng();
        shuffle(&mut order, &mut rng);
        proof {
            assert forall|x: usize|
                #![trigger order@.contains(x)]
                #![trigger initial.contains(x)]
                order@.contains(x) <==> initial.contains(x) by {
                vstd::seq_lib::to_multiset_contains(order@, x);
                vstd::seq_lib::to_multiset_contains(initial, x);
            }
            assert forall|q: int| 0 <= q < order@.len() implies #[trigger] order@[q] < MOVEMENT_COUNT by {
                assert(order@.contains(order@[q]));
                assert(initial.contains(order@[q]));
                let k = choose|k: int| 0 <= k < initial.len() && initial[k] == order@[q];
                assert(initial[k] == k);
            }

        }
        let spawned = self.spawn_first(&order, offers, loads);
        proof {
            if spawned {
                let q = choose|q: int|
                    0 <= q < order@.len() && (#[trigger] offers@[order@[q] as int]) is Some && (forall|q2: int|
                        0 <= q2 < q ==> (#[trigger] offers@[order@[q2] as int]) is None) && old(self).spawned_into(
                        *self,
                        order@[q] as int,
                        offers@[order@[q] as int].unwrap(),
                        loads@,
                    );
                assert(order@.contains(order@[q]));
            } else {
                assert forall|mm: int| 0 <= mm < MOVEMENT_COUNT implies (#[trigger] offers@[mm]) is None by {
                    assert(initial[mm] == mm as usize);
                    assert(initial.contains(mm as usize));
                    assert(order@.contains(mm as usize));
                    let q = choose|q: int| 0 <= q < order@.len() && order@[q] == mm as usize;
                    assert(offers@[order@[q] as int] is None);
                }
            }
        }
        spawned
    }

    /// Advances the clock by one tick (saturating).
    pub fn begin_step(&mut self)
        ensures
            final(self).tick == if old(self).tick == u64::MAX { u64::MAX } else { (old(self).tick + 1) as u64 },
            final(self).vehicles@ == old(self).vehicles@,
            final(self).stats == old(self).stats,
            final(self).paths == old(self).paths,
            final(self).manager == old(self).manager,
            final(self).next_vehicle_id == old(self).next_vehicle_id,
    {
        self.tick = self.tick.saturating_add(1);
    }

    /// Marks every undetected vehicle that has reached its control zone
    /// (`reached_control[i]`) as detected at the current tick, with a fresh
    /// waiting count.
    pub fn detect_vehicles(&mut self, reached_control: &Vec<bool>)
        requires
            reached_control@.len() == old(self).vehicles@.len(),
        ensures
            final(self).vehicles@.len() == old(self).vehicles@.len(),
            forall|i: int|
                0 <= i < old(self).vehicles@.len() ==> {
                    let v = old(self).vehicles@[i];
                    let w = #[trigger] final(self).vehicles@[i];
                    &&& w.id == v.id
                    &&& w.origin == v.origin
                    &&& w.route == v.route
                    &&& w.visual == v.visual
                    &&& w.reserved == v.reserved
                    &&& w.motion == v.motion
                    &&& if v.detected_tick is None && reached_control@[i] {
                        w.detected_tick == Some(old(self).tick) && w.wait_ticks == 0
                    } else {
                        w.detected_tick == v.detected_tick && w.wait_ticks == v.wait_ticks
                    }
                },
            final(self).stats == old(self).stats,
            final(self).paths == old(self).paths,
            final(self).manager == old(self).manager,
            final(self).tick == old(self).tick,
            final(self).next_vehicle_id == old(self).next_vehicle_id,
    {
        let mut i: usize = 0;
        while i < self.vehicles.len()
            invariant
                i <= self.vehicles@.len(),
                self.vehicles@.len() == old(self).vehicles@.len(),
                reached_control@.len() == old(self).vehicles@.len(),
                self.stats == old(self).stats,
                self.paths == old(self).paths,
                self.manager == old(self).manager,
                self.tick == old(self).tick,
                self.next_vehicle_id == old(self).next_vehicle_id,
                forall|k: int| i <= k < self.vehicles@.len() ==> #[trigger] self.vehicles@[k] == old(self).vehicles@[k],
                forall|k: int|
                    0 <= k < i ==> {
                        let v = old(self).vehicles@[k];
                        let w = #[trigger] self.vehicles@[k];
                        &&& w.id == v.id
                        &&& w.origin == v.origin
                        &&& w.route == v.route
                        &&& w.visual == v.visual
                        &&& w.reserved == v.reserved
                        &&& w.motion == v.motion
                        &&& if v.detected_tick is None && reached_control@[k] {
                            w.detected_tick == Some(old(self).tick) && w.wait_ticks == 0
                        } else {
                            w.detected_tick == v.detected_tick && w.wait_ticks == v.wait_ticks
                        }
                    },
            decreases self.vehicles@.len() - i,
        {
            if self.vehicles[i].detected_tick.is_none() && reached_control[i] {
                let tick = self.tick;
                self.vehicles[i].detected_tick = Some(tick);
                self.vehicles[i].wait_ticks = 0;
            }
            i += 1;
        }
    }

    /// One reservation round of the intersection manager over all vehicles.
    pub fn update_reservations(&mut self, facts: &Vec<ProgressFacts>)
        requires
            facts@.len() == old(self).vehicles@.len(),
            old(self).vehicles@.len() * 60 <= u64::MAX,
            all_placed(old(self).vehicles@),
        ensures
            old(self).manager.update_outcome(old(self).vehicles@, facts@, final(self).vehicles@),
            final(self).stats == old(self).stats,
            final(self).paths == old(self).paths,
            final(self).manager == old(self).manager,
            final(self).tick == old(self).tick,
            final(self).next_vehicle_id == old(self).next_vehicle_id,
    {
        self.manager.update(&mut self.vehicles, facts);
    }

    /// The controller's target speed level for vehicle `index`.
    pub fn target_speed(&self, index: usize, past_conflict_entry: bool, band: StopBand) -> (level: SpeedLevel)
        requires
            index < self.vehicles@.len(),
        ensures
            level == {
                let v = self.vehicles@[index as int];
                if v.detected_tick is None || v.reserved || past_conflict_entry {
                    SpeedLevel::Cruise
                } else {
                    match band {
                        StopBand::Far => SpeedLevel::Cruise,
                        StopBand::Near => SpeedLevel::Slow,
                        StopBand::AtStop => SpeedLevel::Stop,
                    }
                }
            },
    {
        self.manager.target_speed(&self.vehicles[index], past_conflict_entry, band)
    }

    /// Adds the emergency safety clamps applied in one step (saturating).
    pub fn count_emergency_clamps(&mut self, clamps: u32)
        ensures
            final(self).stats.emergency_clamps == saturated(old(self).stats.emergency_clamps, clamps as nat),
            final(self).stats.spawned == old(self).stats.spawned,
            final(self).stats.passed == old(self).stats.passed,
            final(self).stats.rejected_spawns == old(self).stats.rejected_spawns,
            final(self).stats.close_calls == old(self).stats.close_calls,
            final(self).stats.collisions == old(self).stats.collisions,
            final(self).stats.peak_vehicles == old(self).stats.peak_vehicles,
            final(self).stats.peak_lane_queue == old(self).stats.peak_lane_queue,
            final(self).stats.peak_approach_vehicles == old(self).stats.peak_approach_vehicles,
            final(self).stats.close_pairs == old(self).stats.close_pairs,
            final(self).stats.collision_pairs == old(self).stats.collision_pairs,
            final(self).vehicles@ == old(self).vehicles@,
            final(self).paths == old(self).paths,
            final(self).manager == old(self).manager,
            final(self).tick == old(self).tick,
            final(self).next_vehicle_id == old(self).next_vehicle_id,
    {
        self.stats.emergency_clamps = self.stats.emergency_clamps.saturating_add(clamps);
    }

    /// End-of-step bookkeeping: the proximity check over all vehicle pairs
    /// and the peak loads (vehicles on the road, slow queue and approaching
    /// vehicles in the busiest lane).
    pub fn observe_step(&mut self, proximity: &Vec<ProximitySample>, loads: &Vec<LaneSample>)
        requires
            all_placed(old(self).vehicles@),
            lanes_of(loads@, old(self).vehicles@),
            pairs_of(proximity@, old(self).vehicles@),
        ensures
            distinct_ids(old(self).vehicles@) ==> final(self).stats.collisions == saturated(
                old(self).stats.collisions,
                colliding_pairs(proximity@).filter(
                    |p: (u64, u64)| !old(self).stats.collision_pairs.has(p),
                ).len(),
            ),
            distinct_ids(old(self).vehicles@) ==> final(self).stats.close_calls == saturated(
                old(self).stats.close_calls,
                close_call_pairs(proximity@).filter(|p: (u64, u64)| !old(self).stats.close_pairs.has(p)).len(),
            ),
            distinct_ids(old(self).vehicles@) ==> forall|p: (u64, u64)|
                !(#[trigger] final(self).stats.collision_pairs.has(p) && final(self).stats.close_pairs.has(p)),
            forall|p: (u64, u64)|
                #[trigger] final(self).stats.collision_pairs.has(p) <==> exists|k: int|
                    0 <= k < proximity@.len() && collision_sample(proximity@[k]) && pair_key(proximity@[k]) == p,
            forall|p: (u64, u64)|
                #[trigger] final(self).stats.close_pairs.has(p) <==> exists|k: int|
                    0 <= k < proximity@.len() && close_call_sample(proximity@[k]) && pair_key(proximity@[k]) == p,
            final(self).stats.collisions == saturated(
                old(self).stats.collisions,
                new_collisions(proximity@, old(self).stats.collision_pairs, proximity@.len() as int),
            ),
            final(self).stats.close_calls == saturated(
                old(self).stats.close_calls,
                new_close_calls(proximity@, old(self).stats.close_pairs, proximity@.len() as int),
            ),
            final(self).stats.peak_vehicles == raised(old(self).stats.peak_vehicles, old(self).vehicles@.len() as usize),
            final(self).stats.peak_lane_queue == raised(
                old(self).stats.peak_lane_queue,
                busiest_lane(loads@, true, MOVEMENT_COUNT as int) as usize,
            ),
            final(self).stats.peak_approach_vehicles == raised(
                old(self).stats.peak_approach_vehicles,
                busiest_lane(loads@, false, MOVEMENT_COUNT as int) as usize,
            ),
            final(self).stats.spawned == old(self).stats.spawned,
            final(self).stats.passed == old(self).stats.passed,
            final(self).stats.rejected_spawns == old(self).stats.rejected_spawns,
            final(self).stats.emergency_clamps == old(self).stats.emergency_clamps,
            final(self).vehicles@ == old(self).vehicles@,
            final(self).paths == old(self).paths,
            final(self).manager == old(self).manager,
            final(self).tick == old(self).tick,
            final(self).next_vehicle_id == old(self).next_vehicle_id,
    {
        proof {
            lemma_lane_movements(loads@, self.vehicles@);
            if distinct_ids(self.vehicles@) {
                pair_samples_are_distinct(proximity@, self.vehicles@);
                proximity_counting_law(proximity@, self.stats.collision_pairs, self.stats.close_pairs);
            }
        }
        self.stats.observe_proximity(proximity);
        let (peak_queue, peak_approach) = lane_load_peaks(loads);
        self.stats.update_peaks(self.vehicles.len(), peak_queue, peak_approach);
    }

    /// Takes every vehicle flagged in `completed` (it has reached the end of
    /// its path) off the road, keeping the others in order, and counts each
    /// one as passed. Returns the removed vehicles in order.
    pub fn remove_completed(&mut self, completed: &Vec<bool>) -> (removed: Vec<Vehicle<M>>)
        requires
            completed@.len() == old(self).vehicles@.len(),
        ensures
            final(self).vehicles@ == kept_vehicles(old(self).vehicles@, completed@),
            removed@ == finished_vehicles(old(self).vehicles@, completed@),
            final(self).stats.passed == saturated(old(self).stats.passed, removed@.len()),
            final(self).stats.spawned == old(self).stats.spawned,
            final(self).stats.rejected_spawns == old(self).stats.rejected_spawns,
            final(self).stats.close_calls == old(self).stats.close_calls,
            final(self).stats.collisions == old(self).stats.collisions,
            final(self).stats.emergency_clamps == old(self).stats.emergency_clamps,
            final(self).stats.peak_vehicles == old(self).stats.peak_vehicles,
            final(self).stats.peak_lane_queue == old(self).stats.peak_lane_queue,
            final(self).stats.peak_approach_vehicles == old(self).stats.peak_approach_vehicles,
            final(self).paths == old(self).paths,
            final(self).manager == old(self).manager,
            final(self).tick == old(self).tick,
            final(self).next_vehicle_id == old(self).next_vehicle_id,
    {
        let ghost all = self.vehicles@;
        let ghost done = completed@;
        let mut removed: Vec<Vehicle<M>> = Vec::new();
        let mut index: usize = 0;
        let mut k: usize = 0;
        while k < completed.len()
            invariant
                all == old(self).vehicles@,
                done == completed@,
                done.len() == all.len(),
                k <= all.len(),
                self.vehicles@ == kept_vehicles(all.take(k as int), done.take(k as int)) + all.skip(k as int),
                removed@ == finished_vehicles(all.take(k as int), done.take(k as int)),
                index == kept_vehicles(all.take(k as int), done.take(k as int)).len(),
                self.stats.passed == saturated(old(self).stats.passed, removed@.len()),
                self.stats.spawned == old(self).stats.spawned,
                self.stats.rejected_spawns == old(self).stats.rejected_spawns,
                self.stats.close_calls == old(self).stats.close_calls,
                self.stats.collisions == old(self).stats.collisions,
                self.stats.emergency_clamps == old(self).stats.emergency_clamps,
                self.stats.peak_vehicles == old(self).stats.peak_vehicles,
                self.stats.peak_lane_queue == old(self).stats.peak_lane_queue,
                self.stats.peak_approach_vehicles == old(self).stats.peak_approach_vehicles,
                self.paths == old(self).paths,
                self.manager == old(self).manager,
                self.tick == old(self).tick,
                self.next_vehicle_id == old(self).next_vehicle_id,
            decreases all.len() - k,
        {
            let ghost kept_before = kept_vehicles(all.take(k as int), done.take(k as int));
            let ghost finished_before = finished_vehicles(all.take(k as int), done.take(k as int));
            proof {
                assert(all.take(k + 1).take(k as int) =~= all.take(k as int));
                assert(done.take(k + 1).take(k as int) =~= done.take(k as int));
                assert(all.take(k + 1)[k as int] == all[k as int]);
                assert(done.take(k + 1)[k as int] == done[k as int]);
                assert(self.vehicles@[index as int] == all[k as int]);
            }
            let on_road = self.vehicles.len();
            proof {
                assert(index < on_road);
            }
            if completed[k] {
                let vehicle = self.vehicles.remove(index);
                removed.push(vehicle);
                self.stats.record_completion();
                proof {
                    assert(self.vehicles@ =~= kept_before + all.skip(k + 1));
                    assert(removed@ =~= finished_before + seq![all[k as int]]);
                }
            } else {
                index += 1;
                proof {
                    assert(self.vehicles@ =~= (kept_before + seq![all[k as int]]) + all.skip(k + 1));
                }
            }
            k += 1;
        }
        proof {
            assert(all.take(all.len() as int) =~= all);
            assert(done.take(done.len() as int) =~= done);
            assert(all.skip(all.len() as int) =~= Seq::<Vehicle<M>>::empty());
            assert(self.vehicles@ =~= kept_vehicles(all, done));
        }
        removed
    }

    /// Spawning keeps vehicle ids unique, as long as the id counter has not
    /// reached its maximum.
    pub proof fn spawn_keeps_ids_unique(self, new: Self, m: int, motion: M, loads: Seq<LaneSample>)
        requires
            ids_issued_uniquely(self.vehicles@, self.next_vehicle_id),
            self.next_vehicle_id < u64::MAX,
            self.spawned_into(new, m, motion, loads),
        ensures
            ids_issued_uniquely(new.vehicles@, new.next_vehicle_id),
    {
        let vs = self.vehicles@;
        let ws = new.vehicles@;
        assert forall|i: int| 0 <= i < ws.len() implies (#[trigger] ws[i]).id < new.next_vehicle_id by {
            if i < vs.len() {
                assert(ws[i] == vs[i]);
            }
        }
        assert forall|i: int, j: int| 0 <= i < j < ws.len() implies (#[trigger] ws[i]).id != (#[trigger] ws[j]).id by {
            assert(ws[i] == vs[i]);
            if j < vs.len() {
                assert(ws[j] == vs[j]);
            }
        }
    }
}

} // verus!
