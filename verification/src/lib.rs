//! A grid-world exploration simulator: procedural generation of a
//! room-and-corridor map, raycast visibility, occupancy-grid mapping and
//! brute-force pose correction, with agent kinematics.
//!
//! All world quantities are fixed-point integers: positions are measured in
//! centipixels (`WORLD_UNIT` subunits per pixel), headings in angle units
//! (`geom::ANGLE_FULL` units per full turn), so that every computation is
//! exact integer arithmetic.
use vstd::prelude::*;

pub mod geom;
pub mod agent;
pub mod grid;
pub mod occupancy;
pub mod raycast;
pub mod rng;

verus! {

/// Subunits of world distance per pixel of the rendering surface.
pub const WORLD_UNIT: i64 = 100;

/// Largest magnitude allowed for an agent coordinate, in world subunits.
pub const POS_LIMIT: i64 = 200_000_000;

/// Largest sensor range, in world subunits.
pub const RANGE_LIMIT: i64 = 100_000_000;

/// The immutable parameters of a simulation session.
///
/// Distances (`cell_size`, `speed`, `radius`, `loc_step`) are world
/// subunits; `turn_speed` is in angle units; `loc_margin` is in score
/// units.  Room sizes and the hall width are in tiles.
#[derive(Clone, Copy, PartialEq, Eq, Structural, Debug)]
pub struct SimConfig {
    pub cell_size: i64,
    pub speed: i64,
    pub turn_speed: i64,
    pub radius: i64,
    pub num_rays: usize,
    pub num_rooms: usize,
    pub room_w_min: usize,
    pub room_w_max: usize,
    pub room_h_min: usize,
    pub room_h_max: usize,
    pub hall_width: usize,
    pub loc_step: i64,
    pub loc_margin: i64,
}

impl SimConfig {
    /// Well-formedness of a configuration: every parameter within the
    /// machine bounds the fixed-point arithmetic relies on.
    pub open spec fn wf(self) -> bool {
        &&& 1 <= self.cell_size <= 1_000_000
        &&& 0 <= self.speed <= 1_000_000
        &&& 1 <= self.turn_speed <= crate::geom::ANGLE_HALF
        &&& 0 <= self.radius <= 1_000_000
        &&& 1 <= self.num_rays <= 100_000
        &&& self.num_rooms <= 10_000
        &&& 1 <= self.room_w_min < self.room_w_max <= 2000
        &&& 1 <= self.room_h_min < self.room_h_max <= 2000
        &&& 1 <= self.hall_width <= 100
        &&& 1 <= self.loc_step <= 1_000_000
        &&& 0 <= self.loc_margin <= 1_000_000_000
    }

    /// The standard session parameters: 7.5-pixel cells, 180 rays, 15
    /// rooms of 2 to 5 tiles, hall width 3, speed 0.8 pixels, turn speed
    /// about 0.025 radians, radius 5 pixels, localization step 0.04
    /// pixels with a margin of 5 score points.
    pub fn standard() -> (c: SimConfig)
        ensures
            c.wf(),
            c.cell_size == 750 && c.speed == 80 && c.turn_speed == 86,
            c.radius == 500 && c.num_rays == 180 && c.num_rooms == 15,
            c.room_w_min == 2 && c.room_w_max == 6,
            c.room_h_min == 2 && c.room_h_max == 6,
            c.hall_width == 3 && c.loc_step == 4 && c.loc_margin == 50,
    {
        SimConfig {
            cell_size: 750,
            speed: 80,
            turn_speed: 86,
            radius: 500,
            num_rays: 180,
            num_rooms: 15,
            room_w_min: 2,
            room_w_max: 6,
            room_h_min: 2,
            room_h_max: 6,
            hall_width: 3,
            loc_step: 4,
            loc_margin: 50,
        }
    }
}

} // verus!
