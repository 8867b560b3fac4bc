//! Per-vehicle control record and identity-derived properties.

use crate::geometry::{movement_id, movement_of, Route, ORIGIN_COUNT};
use vstd::prelude::*;

verus! {

/// Salt of the acceleration-factor stream.
pub const ACCELERATION_SALT: u64 = 0xA076_1D64_78BD_642F;
/// Salt of the braking-factor stream.
pub const BRAKING_SALT: u64 = 0xE703_7ED1_A0B4_28DB;

#[derive(Clone, Copy, Debug, PartialEq, Eq, Structural)]
pub enum VehicleVisual {
    Sedan,
    Sport,
    RoboTaxi,
    Bus,
    Police,
    Ambulance,
    Fire,
}

/// The visual variant in slot `slot` of the seven-variant cycle.
pub open spec fn visual_in_cycle(slot: int) -> VehicleVisual {
    if slot == 0 {
        VehicleVisual::Sedan
    } else if slot == 1 {
        VehicleVisual::Sport
    } else if slot == 2 {
        VehicleVisual::RoboTaxi
    } else if slot == 3 {
        VehicleVisual::Bus
    } else if slot == 4 {
        VehicleVisual::Police
    } else if slot == 5 {
        VehicleVisual::Ambulance
    } else {
        VehicleVisual::Fire
    }
}

/// Vehicle `id` takes slot `(id - 1) mod 7`; id 0 shares the first slot.
pub open spec fn visual_of_id(id: u64) -> VehicleVisual {
    if id == 0 {
        visual_in_cycle(0)
    } else {
        visual_in_cycle((id - 1) % 7)
    }
}

impl VehicleVisual {
    pub fn from_id(id: u64) -> (v: Self)
        ensures
            v == visual_of_id(id),
    {
        match id.saturating_sub(1) % 7 {
            0 => Self::Sedan,
            1 => Self::Sport,
            2 => Self::RoboTaxi,
            3 => Self::Bus,
            4 => Self::Police,
            5 => Self::Ambulance,
            _ => Self::Fire,
        }
    }
}

/// Consecutive vehicle ids cycle through all seven visual variants.
pub proof fn visual_cycle_law(id: u64)
    requires
        1 <= id,
        id + 7 <= u64::MAX,
    ensures
        visual_of_id((id + 7) as u64) == visual_of_id(id),
{
    assert((id + 7 - 1) % 7 == (id - 1) % 7) by (nonlinear_arith)
        requires
            1 <= id,
    ;
}

/// One step of the 64-bit finalising mixer used for stable per-vehicle noise.
pub open spec fn mix_step(value: u64, shift: u64, multiplier: u64) -> u64 {
    (((value ^ (value >> shift)) as nat * multiplier as nat) % 0x1_0000_0000_0000_0000nat) as u64
}

/// The full mixer applied to `id + salt` (wrapping).
pub open spec fn mixed(id: u64, salt: u64) -> u64 {
    let start = ((id as nat + salt as nat) % 0x1_0000_0000_0000_0000nat) as u64;
    let first = mix_step(start, 30, 0xBF58_476D_1CE4_E5B9);
    let second = mix_step(first, 27, 0x94D0_49BB_1331_11EB);
    second ^ (second >> 31)
}

/// The 53-bit sample behind a vehicle's dynamics factor: the top 53 bits of
/// the mixed `id + salt`. The factor is `0.80 + 0.45 * sample / 2^53`.
pub fn dynamics_sample(id: u64, salt: u64) -> (sample: u64)
    ensures
        sample == mixed(id, salt) >> 11,
        sample < 0x20_0000_0000_0000,
{
    let mut value = id.wrapping_add(salt);
    value = (value ^ (value >> 30)).wrapping_mul(0xBF58_476D_1CE4_E5B9);
    value = (value ^ (value >> 27)).wrapping_mul(0x94D0_49BB_1331_11EB);
    value = value ^ (value >> 31);
    let sample = value >> 11;
    assert(value >> 11 < 0x20_0000_0000_0000) by (bit_vector);
    sample
}

/// The control record of one vehicle. `motion` carries the continuous
/// kinematic state, which the controller never reads.
pub struct Vehicle<M> {
    pub id: u64,
    pub origin: usize,
    pub route: Route,
    pub visual: VehicleVisual,
    pub detected_tick: Option<u64>,
    pub wait_ticks: u64,
    pub reserved: bool,
    pub motion: M,
}

impl<M> Vehicle<M> {
    /// The movement number of this vehicle.
    pub open spec fn movement(&self) -> int {
        movement_of(self.origin as int, self.route)
    }

    /// Whether the vehicle enters from one of the four origins.
    pub open spec fn placed(&self) -> bool {
        self.origin < ORIGIN_COUNT
    }

    pub fn new(id: u64, origin: usize, route: Route, motion: M) -> (v: Self)
        ensures
            v.id == id,
            v.origin == origin,
            v.route == route,
            v.visual == visual_of_id(id),
            v.detected_tick is None,
            v.wait_ticks == 0,
            !v.reserved,
            v.motion == motion,
    {
        Vehicle {
            id,
            origin,
            route,
            visual: VehicleVisual::from_id(id),
            detected_tick: None,
            wait_ticks: 0,
            reserved: false,
            motion,
        }
    }

    pub fn movement_id(&self) -> (m: usize)
        requires
            self.origin * 3 + 2 <= usize::MAX,
        ensures
            m == self.movement(),
    {
        movement_id(self.origin, self.route)
    }
}

} // verus!
