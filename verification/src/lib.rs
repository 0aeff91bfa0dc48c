//! Core of a recursive Monte Carlo ray tracer over exact fixed-point
//! arithmetic: vector math, ray/sphere intersection, material scattering,
//! and the camera model that integrates per-pixel radiance.
//!
//! Every scalar is a signed 64-bit fixed-point number with six decimal
//! places (see [`fixed::SCALE`]), so all geometry and shading is integer
//! arithmetic with exact, machine-checked contracts.

use vstd::prelude::*;

pub mod camera;
pub mod color;
pub mod fixed;
pub mod hittable;
pub mod hittable_list;
pub mod material;
pub mod rtweekend;
pub mod ray;
pub mod sphere;
pub mod vec3;

verus! {

/// Smallest hit parameter accepted by the renderer's scene queries,
/// guarding against a scattered ray immediately re-hitting its own
/// origin surface (shadow acne).
pub const SHADOW_ACNE_MIN_T: i64 = 1_000;

} // verus!


