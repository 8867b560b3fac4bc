//! Traffic counters: spawns, passes, close calls, collisions, safety clamps
//! and the peak loads seen on the road.

use std::collections::HashSet;
use vstd::prelude::*;

verus! {

broadcast use vstd::std_specs::hash::group_hash_axioms;

/// One pair of vehicles as the proximity check saw it in one step.
#[derive(Clone, Copy, Debug)]
pub struct ProximitySample {
    pub first_id: u64,
    pub second_id: u64,
    /// The vehicle bodies overlap.
    pub colliding: bool,
    /// The bodies, each grown by the close-call gap, overlap.
    pub close: bool,
}

/// The unordered pair of ids of a sample, smaller id first.
pub open spec fn pair_key(s: ProximitySample) -> (u64, u64) {
    if s.first_id < s.second_id {
        (s.first_id, s.second_id)
    } else {
        (s.second_id, s.first_id)
    }
}

/// The sample reports a collision.
pub open spec fn collision_sample(s: ProximitySample) -> bool {
    s.colliding
}

/// The sample reports a close call that is not a collision.
pub open spec fn close_call_sample(s: ProximitySample) -> bool {
    !s.colliding && s.close
}

/// Number of samples among the first `k` that report a collision for a pair
/// that was not colliding before (`earlier`).
pub open spec fn new_collisions(samples: Seq<ProximitySample>, earlier: PairSet, k: int) -> nat
    decreases k,
{
    if k <= 0 {
        0
    } else {
        new_collisions(samples, earlier, k - 1) + if collision_sample(samples[k - 1]) && !earlier.has(pair_key(samples[k - 1])) {
            1nat
        } else {
            0nat
        }
    }
}

/// Number of samples among the first `k` that report a close call for a pair
/// that was not already close before (`earlier`).
pub open spec fn new_close_calls(samples: Seq<ProximitySample>, earlier: PairSet, k: int) -> nat
    decreases k,
{
    if k <= 0 {
        0
    } else {
        new_close_calls(samples, earlier, k - 1) + if close_call_sample(samples[k - 1])
            && !earlier.has(pair_key(samples[k - 1])) {
            1nat
        } else {
            0nat
        }
    }
}

/// No unordered pair of ids occurs in two samples, as when every pair of
/// distinct vehicles is sampled once.
pub open spec fn distinct_pairs(samples: Seq<ProximitySample>) -> bool {
    forall|j: int, k: int|
        0 <= j < k < samples.len() ==> pair_key(#[trigger] samples[j]) != pair_key(#[trigger] samples[k])
}

/// The sample reports a collision (`collisions`) or a close call.
pub open spec fn reports(s: ProximitySample, collisions: bool) -> bool {
    if collisions {
        collision_sample(s)
    } else {
        close_call_sample(s)
    }
}

/// The pairs that the first `k` samples report (as collisions or as close
/// calls) and that `earlier` does not hold.
pub open spec fn newly_reported(samples: Seq<ProximitySample>, earlier: PairSet, collisions: bool, k: int) -> Set<(u64, u64)> {
    Set::new(|p: (u64, u64)| !earlier.has(p) && exists|j: int|
        0 <= j < k && reports(samples[j], collisions) && pair_key(samples[j]) == p)
}

/// The pairs the samples report as colliding.
pub open spec fn colliding_pairs(samples: Seq<ProximitySample>) -> Set<(u64, u64)> {
    Set::new(|p: (u64, u64)| exists|j: int|
        0 <= j < samples.len() && collision_sample(samples[j]) && pair_key(samples[j]) == p)
}

/// The pairs the samples report as close without colliding.
pub open spec fn close_call_pairs(samples: Seq<ProximitySample>) -> Set<(u64, u64)> {
    Set::new(|p: (u64, u64)| exists|j: int|
        0 <= j < samples.len() && close_call_sample(samples[j]) && pair_key(samples[j]) == p)
}

proof fn lemma_newly_reported(samples: Seq<ProximitySample>, earlier: PairSet, collisions: bool, k: int)
    requires
        0 <= k <= samples.len(),
        distinct_pairs(samples),
    ensures
        newly_reported(samples, earlier, collisions, k).finite(),
        newly_reported(samples, earlier, collisions, k).len() == if collisions {
            new_collisions(samples, earlier, k)
        } else {
            new_close_calls(samples, earlier, k)
        },
    decreases k,
{
    let current = newly_reported(samples, earlier, collisions, k);
    if k == 0 {
        assert(current =~= Set::<(u64, u64)>::empty());
    } else {
        lemma_newly_reported(samples, earlier, collisions, k - 1);
        let before = newly_reported(samples, earlier, collisions, k - 1);
        let last = samples[k - 1];
        let key = pair_key(last);
        if reports(last, collisions) && !earlier.has(key) {
            assert(!before.contains(key)) by {
                if before.contains(key) {
                    let j = choose|j: int|
                        0 <= j < k - 1 && reports(samples[j], collisions) && pair_key(samples[j]) == key;
                    assert(pair_key(samples[j]) != pair_key(samples[k - 1]));
                }
            }
            assert(current =~= before.insert(key));
        } else {
            assert(current =~= before);
        }
    }
}

/// Counting in set form: when no pair is sampled twice, a proximity check
/// adds exactly as many collisions as there are colliding pairs that were
/// not colliding before, and as many close calls as there are close pairs
/// that were not close before; and no pair is both colliding and close.
pub proof fn proximity_counting_law(samples: Seq<ProximitySample>, earlier_collisions: PairSet, earlier_close: PairSet)
    requires
        distinct_pairs(samples),
    ensures
        colliding_pairs(samples).finite(),
        close_call_pairs(samples).finite(),
        new_collisions(samples, earlier_collisions, samples.len() as int) == colliding_pairs(samples).filter(
            |p: (u64, u64)| !earlier_collisions.has(p),
        ).len(),
        new_close_calls(samples, earlier_close, samples.len() as int) == close_call_pairs(samples).filter(
            |p: (u64, u64)| !earlier_close.has(p),
        ).len(),
        colliding_pairs(samples).disjoint(close_call_pairs(samples)),
{
    let n = samples.len() as int;
    lemma_newly_reported(samples, earlier_collisions, true, n);
    lemma_newly_reported(samples, earlier_close, false, n);
    assert(colliding_pairs(samples).filter(|p: (u64, u64)| !earlier_collisions.has(p))
        =~= newly_reported(samples, earlier_collisions, true, n));
    assert(close_call_pairs(samples).filter(|p: (u64, u64)| !earlier_close.has(p))
        =~= newly_reported(samples, earlier_close, false, n));
    lemma_reported_finite(samples, true, n);
    lemma_reported_finite(samples, false, n);
    assert(colliding_pairs(samples) =~= reported_upto(samples, true, n));
    assert(close_call_pairs(samples) =~= reported_upto(samples, false, n));
    assert forall|p: (u64, u64)| colliding_pairs(samples).contains(p) implies !close_call_pairs(samples).contains(p) by {
        let j = choose|j: int| 0 <= j < n && collision_sample(samples[j]) && pair_key(samples[j]) == p;
        if close_call_pairs(samples).contains(p) {
            let k = choose|k: int| 0 <= k < n && close_call_sample(samples[k]) && pair_key(samples[k]) == p;
            assert(j != k);
            if j < k {
                assert(pair_key(samples[j]) != pair_key(samples[k]));
            } else {
                assert(pair_key(samples[k]) != pair_key(samples[j]));
            }
        }
    }
}

/// The pairs that the first `k` samples report.
pub open spec fn reported_upto(samples: Seq<ProximitySample>, collisions: bool, k: int) -> Set<(u64, u64)> {
    Set::new(|p: (u64, u64)| exists|j: int| 0 <= j < k && reports(samples[j], collisions) && pair_key(samples[j]) == p)
}

proof fn lemma_reported_finite(samples: Seq<ProximitySample>, collisions: bool, k: int)
    requires
        0 <= k <= samples.len(),
    ensures
        reported_upto(samples, collisions, k).finite(),
    decreases k,
{
    if k == 0 {
        assert(reported_upto(samples, collisions, k) =~= Set::<(u64, u64)>::empty());
    } else {
        lemma_reported_finite(samples, collisions, k - 1);
        let before = reported_upto(samples, collisions, k - 1);
        if reports(samples[k - 1], collisions) {
            assert(reported_upto(samples, collisions, k) =~= before.insert(pair_key(samples[k - 1])));
        } else {
            assert(reported_upto(samples, collisions, k) =~= before);
        }
    }
}

/// `count + extra`, saturating at `u32::MAX`.
pub open spec fn saturated(count: u32, extra: nat) -> u32 {
    if count + extra > u32::MAX {
        u32::MAX
    } else {
        (count + extra) as u32
    }
}

pub struct Statistics {
    pub spawned: u32,
    pub passed: u32,
    pub rejected_spawns: u32,
    pub close_calls: u32,
    pub collisions: u32,
    pub emergency_clamps: u32,
    pub peak_vehicles: usize,
    pub peak_lane_queue: usize,
    pub peak_approach_vehicles: usize,
    /// Pairs that were in a close call at the last proximity check.
    pub close_pairs: PairSet,
    /// Pairs that were colliding at the last proximity check.
    pub collision_pairs: PairSet,
}

/// The hash key of a pair of ids: the first id in the high 64 bits, the
/// second in the low 64 bits.
pub open spec fn pair_code(pair: (u64, u64)) -> u128 {
    (pair.0 as int * 0x1_0000_0000_0000_0000 + pair.1 as int) as u128
}

proof fn lemma_pair_code_injective(p: (u64, u64), q: (u64, u64))
    ensures
        pair_code(p) == pair_code(q) <==> p == q,
{
    let c: int = 0x1_0000_0000_0000_0000;
    assert(0 <= p.0 as int * c + p.1 as int <= u128::MAX) by (nonlinear_arith)
        requires
            c == 0x1_0000_0000_0000_0000,
            0 <= p.0 < c,
            0 <= p.1 < c,
    ;
    assert(0 <= q.0 as int * c + q.1 as int <= u128::MAX) by (nonlinear_arith)
        requires
            c == 0x1_0000_0000_0000_0000,
            0 <= q.0 < c,
            0 <= q.1 < c,
    ;
    if p.0 as int * c + p.1 as int == q.0 as int * c + q.1 as int {
        assert(p.0 == q.0 && p.1 == q.1) by (nonlinear_arith)
            requires
                c == 0x1_0000_0000_0000_0000,
                0 <= p.0 < c,
                0 <= p.1 < c,
                0 <= q.0 < c,
                0 <= q.1 < c,
                p.0 * c + p.1 == q.0 * c + q.1,
        ;
    }
}

/// The hash key of `pair`.
fn encode_pair(pair: (u64, u64)) -> (code: u128)
    ensures
        code == pair_code(pair),
{
    let c: u128 = 0x1_0000_0000_0000_0000;
    let high: u128 = pair.0 as u128;
    assert(high * c <= u128::MAX - 0xffff_ffff_ffff_ffff) by (nonlinear_arith)
        requires
            high <= 0xffff_ffff_ffff_ffff,
            c == 0x1_0000_0000_0000_0000,
    ;
    high * c + pair.1 as u128
}

/// A set of vehicle-id pairs, held in a `HashSet` keyed by `pair_code`.
pub struct PairSet {
    keys: HashSet<u128>,
}

impl PairSet {
    /// Membership of `pair`.
    pub closed spec fn has(&self, pair: (u64, u64)) -> bool {
        self.keys@.contains(pair_code(pair))
    }

    pub fn new() -> (s: Self)
        ensures
            forall|p: (u64, u64)| !s.has(p),
    {
        PairSet { keys: HashSet::new() }
    }

    pub fn contains(&self, pair: (u64, u64)) -> (found: bool)
        ensures
            found == self.has(pair),
    {
        let code = encode_pair(pair);
        self.keys.contains(&code)
    }

    pub fn insert(&mut self, pair: (u64, u64))
        ensures
            forall|p: (u64, u64)| #[trigger] final(self).has(p) <==> old(self).has(p) || p == pair,
    {
        let code = encode_pair(pair);
        self.keys.insert(code);
        proof {
            assert forall|p: (u64, u64)| #[trigger] self.has(p) <==> old(self).has(p) || p == pair by {
                lemma_pair_code_injective(p, pair);
            }
        }
    }
}

impl Statistics {
    /// All counters are zero and no pair is remembered.
    pub open spec fn fresh(&self) -> bool {
        &&& self.spawned == 0
        &&& self.passed == 0
        &&& self.rejected_spawns == 0
        &&& self.close_calls == 0
        &&& self.collisions == 0
        &&& self.emergency_clamps == 0
        &&& self.peak_vehicles == 0
        &&& self.peak_lane_queue == 0
        &&& self.peak_approach_vehicles == 0
        &&& forall|p: (u64, u64)| !self.collision_pairs.has(p) && !self.close_pairs.has(p)
    }

    pub fn new() -> (s: Self)
        ensures
            s.fresh(),
    {
        Statistics {
            spawned: 0,
            passed: 0,
            rejected_spawns: 0,
            close_calls: 0,
            collisions: 0,
            emergency_clamps: 0,
            peak_vehicles: 0,
            peak_lane_queue: 0,
            peak_approach_vehicles: 0,
            close_pairs: PairSet::new(),
            collision_pairs: PairSet::new(),
        }
    }

    /// Counts one vehicle that left the road at the end of its path.
    pub fn record_completion(&mut self)
        ensures
            final(self).passed == saturated(old(self).passed, 1),
            final(self).spawned == old(self).spawned,
            final(self).rejected_spawns == old(self).rejected_spawns,
            final(self).close_calls == old(self).close_calls,
            final(self).collisions == old(self).collisions,
            final(self).emergency_clamps == old(self).emergency_clamps,
            final(self).peak_vehicles == old(self).peak_vehicles,
            final(self).peak_lane_queue == old(self).peak_lane_queue,
            final(self).peak_approach_vehicles == old(self).peak_approach_vehicles,
            forall|p: (u64, u64)| final(self).collision_pairs.has(p) == old(self).collision_pairs.has(p),
            forall|p: (u64, u64)| final(self).close_pairs.has(p) == old(self).close_pairs.has(p),
    {
        self.passed = self.passed.saturating_add(1);
    }

    /// Raises each peak to the current value when the current one is larger.
    pub fn update_peaks(&mut self, on_road: usize, peak_lane_queue: usize, peak_approach_vehicles: usize)
        ensures
            final(self).peak_vehicles == if on_road > old(self).peak_vehicles { on_road } else { old(self).peak_vehicles },
            final(self).peak_lane_queue == if peak_lane_queue > old(self).peak_lane_queue {
                peak_lane_queue
            } else {
                old(self).peak_lane_queue
            },
            final(self).peak_approach_vehicles == if peak_approach_vehicles > old(self).peak_approach_vehicles {
                peak_approach_vehicles
            } else {
                old(self).peak_approach_vehicles
            },
            final(self).spawned == old(self).spawned,
            final(self).passed == old(self).passed,
            final(self).rejected_spawns == old(self).rejected_spawns,
            final(self).close_calls == old(self).close_calls,
            final(self).collisions == old(self).collisions,
            final(self).emergency_clamps == old(self).emergency_clamps,
            forall|p: (u64, u64)| final(self).collision_pairs.has(p) == old(self).collision_pairs.has(p),
            forall|p: (u64, u64)| final(self).close_pairs.has(p) == old(self).close_pairs.has(p),
    {
        if on_road > self.peak_vehicles {
            self.peak_vehicles = on_road;
        }
        if peak_lane_queue > self.peak_lane_queue {
            self.peak_lane_queue = peak_lane_queue;
        }
        if peak_approach_vehicles > self.peak_approach_vehicles {
            self.peak_approach_vehicles = peak_approach_vehicles;
        }
    }

    /// Records one proximity check over all pairs of vehicles. A pair is
    /// counted as a new collision (or close call) only in the check where
    /// it starts colliding (or being close); the remembered pairs are
    /// replaced by the ones seen now.
    pub fn observe_proximity(&mut self, samples: &Vec<ProximitySample>)
        ensures
            forall|p: (u64, u64)|
                #[trigger] final(self).collision_pairs.has(p) <==> exists|k: int|
                    0 <= k < samples@.len() && collision_sample(samples@[k]) && pair_key(samples@[k])
                        == p,
            forall|p: (u64, u64)|
                #[trigger] final(self).close_pairs.has(p) <==> exists|k: int|
                    0 <= k < samples@.len() && close_call_sample(samples@[k]) && pair_key(samples@[k])
                        == p,
            final(self).collisions == saturated(
                old(self).collisions,
                new_collisions(samples@, old(self).collision_pairs, samples@.len() as int),
            ),
            final(self).close_calls == saturated(
                old(self).close_calls,
                new_close_calls(samples@, old(self).close_pairs, samples@.len() as int),
            ),
            distinct_pairs(samples@) ==> final(self).collisions == saturated(
                old(self).collisions,
                colliding_pairs(samples@).filter(|p: (u64, u64)| !old(self).collision_pairs.has(p)).len(),
            ),
            distinct_pairs(samples@) ==> final(self).close_calls == saturated(
                old(self).close_calls,
                close_call_pairs(samples@).filter(|p: (u64, u64)| !old(self).close_pairs.has(p)).len(),
            ),
            final(self).spawned == old(self).spawned,
            final(self).passed == old(self).passed,
            final(self).rejected_spawns == old(self).rejected_spawns,
            final(self).emergency_clamps == old(self).emergency_clamps,
            final(self).peak_vehicles == old(self).peak_vehicles,
            final(self).peak_lane_queue == old(self).peak_lane_queue,
            final(self).peak_approach_vehicles == old(self).peak_approach_vehicles,
    {
        let ghost old_collisions = self.collision_pairs;
        let ghost old_close = self.close_pairs;
        let ghost ss = samples@;
        let mut close_now = PairSet::new();
        let mut collisions_now = PairSet::new();
        let mut k: usize = 0;
        while k < samples.len()
            invariant
                k <= ss.len(),
                ss == samples@,
                self.collision_pairs == old_collisions,
                self.close_pairs == old_close,
                self.spawned == old(self).spawned,
                self.passed == old(self).passed,
                self.rejected_spawns == old(self).rejected_spawns,
                self.emergency_clamps == old(self).emergency_clamps,
                self.peak_vehicles == old(self).peak_vehicles,
                self.peak_lane_queue == old(self).peak_lane_queue,
                self.peak_approach_vehicles == old(self).peak_approach_vehicles,
                self.collisions == saturated(old(self).collisions, new_collisions(ss, old_collisions, k as int)),
                self.close_calls == saturated(old(self).close_calls, new_close_calls(ss, old_close, k as int)),
                forall|p: (u64, u64)|
                    #[trigger] collisions_now.has(p) <==> exists|j: int|
                        0 <= j < k && collision_sample(ss[j]) && pair_key(ss[j]) == p,
                forall|p: (u64, u64)|
                    #[trigger] close_now.has(p) <==> exists|j: int|
                        0 <= j < k && close_call_sample(ss[j]) && pair_key(ss[j]) == p,
            decreases ss.len() - k,
        {
            let sample = samples[k];
            let pair = if sample.first_id < sample.second_id {
                (sample.first_id, sample.second_id)
            } else {
                (sample.second_id, sample.first_id)
            };
            let ghost before_collisions = collisions_now;
            let ghost before_close = close_now;
            if sample.colliding {
                collisions_now.insert(pair);
                if !self.collision_pairs.contains(pair) {
                    self.collisions = self.collisions.saturating_add(1);
                }
            } else if sample.close {
                close_now.insert(pair);
                if !self.close_pairs.contains(pair) {
                    self.close_calls = self.close_calls.saturating_add(1);
                }
            }
            proof {
                assert(pair == pair_key(ss[k as int]));
                assert forall|p: (u64, u64)|
                    #[trigger] collisions_now.has(p) <==> exists|j: int|
                        0 <= j < k + 1 && collision_sample(ss[j]) && pair_key(ss[j]) == p by {
                    if collisions_now.has(p) && !before_collisions.has(p) {
                        assert(collision_sample(ss[k as int]) && pair_key(ss[k as int]) == p);
                    }
                    if exists|j: int| 0 <= j < k + 1 && collision_sample(ss[j]) && pair_key(ss[j]) == p {
                        let j = choose|j: int| 0 <= j < k + 1 && collision_sample(ss[j]) && pair_key(ss[j]) == p;
                        if j < k {
                            assert(before_collisions.has(p));
                        }
                    }
                }
                assert forall|p: (u64, u64)|
                    #[trigger] close_now.has(p) <==> exists|j: int|
                        0 <= j < k + 1 && close_call_sample(ss[j]) && pair_key(ss[j]) == p by {
                    if close_now.has(p) && !before_close.has(p) {
                        assert(close_call_sample(ss[k as int]) && pair_key(ss[k as int]) == p);
                    }
                    if exists|j: int| 0 <= j < k + 1 && close_call_sample(ss[j]) && pair_key(ss[j]) == p {
                        let j = choose|j: int| 0 <= j < k + 1 && close_call_sample(ss[j]) && pair_key(ss[j]) == p;
                        if j < k {
                            assert(before_close.has(p));
                        }
                    }
                }
            }
            k += 1;
        }
        self.close_pairs = close_now;
        self.collision_pairs = collisions_now;
        proof {
            if distinct_pairs(ss) {
                proximity_counting_law(ss, old_collisions, old_close);
            }
        }
    }
}

} // verus!
