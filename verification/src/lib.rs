//! The discrete core of a Monte Carlo path tracer.
//!
//! A path tracer follows rays of light through a scene and averages what they bring back.
//! Most of that is arithmetic on real numbers, and is left to the program that uses this
//! library. What is here is everything that is counted, ordered or arranged:
//!
//! - [`interval`], [`vec3`] and [`aabb`]: ranges, points and boxes on the integer lattice;
//! - [`hit`]: what a ray can hit, and the plain list of such things;
//! - [`bvh`] and [`bvh_laws`]: the bounding volume hierarchy, how it is built and queried,
//!   and why a query of it agrees with a probe of the plain list;
//! - [`perlin`]: the shuffled index tables of a gradient noise field;
//! - [`texture`], [`material`], [`sphere`], [`quad`], [`scene`] and [`scenes`]: scenes
//!   written down as plain values, and the scenes that come with the library;
//! - [`camera`], [`raster`] and [`integrator`]: the settings of the camera, the order of the
//!   pixels, and the course of a light path;
//! - [`color`]: the image as text.
//!
//! Lengths, colour channels and angles are whole numbers of thousandths. Ray parameters are
//! integers of which only the order matters.

pub mod aabb;
pub mod bvh;
pub mod bvh_laws;
pub mod camera;
pub mod color;
pub mod hit;
pub mod integrator;
pub mod interval;
pub mod material;
pub mod perlin;
pub mod quad;
pub mod raster;
pub mod scene;
pub mod scenes;
pub mod sphere;
pub mod texture;
mod utils;
pub mod vec3;
