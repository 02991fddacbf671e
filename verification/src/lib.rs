//! The discrete rules of a small ray tracer: colours and their saturation,
//! the checkerboard pattern of the floor, the choice of the nearest hit,
//! the shadow rule and the order in which a ray meets the spheres.
//!
//! Coordinates never enter this crate. A caller measures distances and
//! compares coordinates with whatever arithmetic it uses and hands over
//! integers and flags; every rule that follows from them is decided here.

pub mod bounce;
pub mod color;
pub mod floor;
pub mod nearest;
pub mod shading;

pub use bounce::{first_stage, next_stage, Stage};
pub use color::{black, saturate, white, Color};
pub use floor::{cell_index, Checkerboard};
pub use nearest::{closest_distance, closest_index, NotANumber};
pub use shading::{exclude_close, shadow_coefficient, LIGHT_POWER};
