//! A recursive radiance estimator for scenes of spheres.
//!
//! The estimator follows a ray through a scene: it finds the nearest surface
//! that the ray strikes, scatters child rays according to the surface's
//! texture, and folds the light that comes back into one color. The geometry
//! is left to the caller: vectors and surfaces enter through the traits
//! [`geometry::Vector`] and [`geometry::Hittable`], and cameras through
//! [`render::Camera`]. Colors, the scattering rules, nearest-hit selection,
//! the recursion budget and the text of an image are exact integer
//! computations, and are what this crate proves.
pub mod color;
pub mod geometry;
pub mod scatter;
pub mod estimator;
pub mod render;
pub mod ppm;
