//! Steering core of a wandering-ant simulation, in fixed-point arithmetic: one pixel is
//! `SCALE` units, angles are in millidegrees.
pub mod ant;
pub mod fixed;
pub mod model;
mod random;

pub use ant::{angle_delta, draw_range, Ant, Bounds, Nudge, DIM_LIMIT, POS_LIMIT, VEL_LIMIT};
pub use fixed::{ceil_sqrt_u128, scale_to, truncate, Vector, SCALE};
pub use model::{generate_hashmap, MapPixel, Model};
