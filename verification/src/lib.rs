//! A discretized signed-distance field over a rectangular region of 2D space,
//! with derived gradient and curl grids, interpolated sampling, and a
//! trigger/poll scheduler that keeps recomputation off the per-frame path.
//!
//! All quantities are integers: world coordinates and distances are whole
//! world units, while fractional quantities (rotations, slopes, unit
//! directions, interpolation weights) are fixed-point values scaled by
//! [`math::SCALE`]. The host picks how fine a world unit is; since a
//! region's grid spacing must be a whole number of world units, a grid
//! denser than one cell per unit asks for a finer unit (the default region
//! counts `1 / SCALE` of a display unit, giving a 2000 x 2000 grid over
//! 800 x 400 display units a step of hundreds of world units).

pub mod calibration;
pub mod compute;
pub mod field;
pub mod image;
pub mod math;
pub mod obstacle;
pub mod scheduler;
pub mod vec2;
