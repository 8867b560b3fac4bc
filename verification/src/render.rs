//! Decisions of the renderer that depend only on discrete state: sprite
//! sizes, turn-signal blinking and the live counts of the side panel.

use crate::geometry::Route;
use crate::vehicle::{Vehicle, VehicleVisual};
use vstd::prelude::*;

verus! {

/// Width of the side panel in pixels.
pub const PANEL_W: u32 = 300;
/// Half a blink period of the turn signals, in ticks (a third of a second).
pub const TURN_SIGNAL_HALF_PERIOD_TICKS: u64 = 20;

/// On-screen size (width, length) in pixels of a vehicle sprite.
pub fn vehicle_render_size(visual: VehicleVisual) -> (size: (u32, u32))
    ensures
        size == match visual {
            VehicleVisual::Sedan => (16u32, 32u32),
            VehicleVisual::Sport => (16, 32),
            VehicleVisual::RoboTaxi => (17, 30),
            VehicleVisual::Bus => (18, 46),
            VehicleVisual::Police => (16, 32),
            VehicleVisual::Ambulance => (19, 40),
            VehicleVisual::Fire => (19, 44),
        },
{
    match visual {
        VehicleVisual::Sedan => (16, 32),
        VehicleVisual::Sport => (16, 32),
        VehicleVisual::RoboTaxi => (17, 30),
        VehicleVisual::Bus => (18, 46),
        VehicleVisual::Police => (16, 32),
        VehicleVisual::Ambulance => (19, 40),
        VehicleVisual::Fire => (19, 44),
    }
}

/// The blink phase in which turn signals are lit.
pub open spec fn signal_phase_lit(tick: u64) -> bool {
    (tick / TURN_SIGNAL_HALF_PERIOD_TICKS) % 2 == 0
}

/// A turning vehicle shows its signal, blinking, from its control zone
/// until shortly after its curve. `path_points` is the number of points of
/// its path and `within_signal_span` whether its progress lies in that
/// stretch (only meaningful for paths of three or more points).
pub fn turn_signal_visible(route: Route, path_points: usize, within_signal_span: bool, tick: u64) -> (visible: bool)
    ensures
        visible == (route != Route::Straight && path_points >= 3 && within_signal_span
            && signal_phase_lit(tick)),
{
    if route == Route::Straight || path_points < 3 {
        return false;
    }
    within_signal_span && (tick / TURN_SIGNAL_HALF_PERIOD_TICKS) % 2 == 0
}

/// Number of vehicles among the first `k` that hold a reservation.
pub open spec fn reserved_upto<M>(vs: Seq<Vehicle<M>>, k: int) -> nat
    decreases k,
{
    if k <= 0 {
        0
    } else {
        reserved_upto(vs, k - 1) + if vs[k - 1].reserved {
            1nat
        } else {
            0nat
        }
    }
}

/// A vehicle that waits at the intersection: detected, unreserved and not
/// turning right (right turns do not cross the conflict area's interior).
pub open spec fn panel_waiting<M>(v: Vehicle<M>) -> bool {
    v.route != Route::Right && v.detected_tick is Some && !v.reserved
}

/// Number of waiting vehicles among the first `k`.
pub open spec fn waiting_upto<M>(vs: Seq<Vehicle<M>>, k: int) -> nat
    decreases k,
{
    if k <= 0 {
        0
    } else {
        waiting_upto(vs, k - 1) + if panel_waiting(vs[k - 1]) {
            1nat
        } else {
            0nat
        }
    }
}

proof fn lemma_panel_counts_filter<M>(
    vs: Seq<Vehicle<M>>,
    k: int,
    reserved: spec_fn(Vehicle<M>) -> bool,
    waiting: spec_fn(Vehicle<M>) -> bool,
)
    requires
        0 <= k <= vs.len(),
        forall|v: Vehicle<M>| #[trigger] reserved(v) == v.reserved,
        forall|v: Vehicle<M>|
            #[trigger] waiting(v) == (v.route != Route::Right && v.detected_tick is Some && !v.reserved),
    ensures
        reserved_upto(vs, k) == vs.take(k).filter(reserved).len(),
        waiting_upto(vs, k) == vs.take(k).filter(waiting).len(),
    decreases k,
{
    reveal(Seq::filter);
    if k > 0 {
        lemma_panel_counts_filter(vs, k - 1, reserved, waiting);
        let t = vs.take(k);
        assert(t.drop_last() =~= vs.take(k - 1));
        assert(t.last() == vs[k - 1]);
        assert(reserved(vs[k - 1]) == vs[k - 1].reserved);
        assert(waiting(vs[k - 1]) == panel_waiting(vs[k - 1]));
        assert(t.filter(reserved) == (if reserved(t.last()) {
            t.drop_last().filter(reserved).push(t.last())
        } else {
            t.drop_last().filter(reserved)
        }));
        assert(t.filter(waiting) == (if waiting(t.last()) {
            t.drop_last().filter(waiting).push(t.last())
        } else {
            t.drop_last().filter(waiting)
        }));
    } else {
        assert(vs.take(0) =~= Seq::<Vehicle<M>>::empty());
        assert(vs.take(0).filter(reserved).len() == 0);
        assert(vs.take(0).filter(waiting).len() == 0);
    }
}

/// The panel counts every reserved vehicle, and as waiting every detected,
/// unreserved vehicle that does not turn right.
pub proof fn panel_counts_law<M>(vs: Seq<Vehicle<M>>)
    ensures
        reserved_upto(vs, vs.len() as int) == vs.filter(|v: Vehicle<M>| v.reserved).len(),
        waiting_upto(vs, vs.len() as int) == vs.filter(
            |v: Vehicle<M>| v.route != Route::Right && v.detected_tick is Some && !v.reserved,
        ).len(),
{
    let reserved = |v: Vehicle<M>| v.reserved;
    let waiting = |v: Vehicle<M>| v.route != Route::Right && v.detected_tick is Some && !v.reserved;
    lemma_panel_counts_filter(vs, vs.len() as int, reserved, waiting);
    assert(vs.take(vs.len() as int) =~= vs);
}

/// The panel's live counts: reserved vehicles and waiting vehicles.
pub fn panel_counts<M>(vehicles: &Vec<Vehicle<M>>) -> (counts: (usize, usize))
    ensures
        counts.0 == reserved_upto(vehicles@, vehicles@.len() as int),
        counts.1 == waiting_upto(vehicles@, vehicles@.len() as int),
{
    let mut reserved: usize = 0;
    let mut waiting: usize = 0;
    let mut i: usize = 0;
    while i < vehicles.len()
        invariant
            i <= vehicles@.len(),
            reserved == reserved_upto(vehicles@, i as int),
            waiting == waiting_upto(vehicles@, i as int),
            reserved <= i,
            waiting <= i,
        decreases vehicles@.len() - i,
    {
        let v = &vehicles[i];
        if v.reserved {
            reserved += 1;
        }
        if v.route != Route::Right && v.detected_tick.is_some() && !v.reserved {
            waiting += 1;
        }
        i += 1;
    }
    (reserved, waiting)
}

} // verus!
