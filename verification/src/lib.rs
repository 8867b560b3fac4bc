//! Control core of an autonomous four-way intersection without traffic
//! lights: movement encoding, reservation admission, spawn selection and
//! traffic statistics.

pub mod geometry;
pub mod vehicle;
pub mod controller;
pub mod stats;
pub mod simulation;
pub mod sprites;
pub mod render;
mod random;
