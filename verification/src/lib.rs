//! A ray tracer for a single sphere.
//!
//! A pinhole camera at the origin of the world looks along the z axis at a
//! sphere, which is shaded by its surface normal. Every pixel of the image is
//! the average of several samples, each taken through a point of the pixel
//! that is chosen at random.
//!
//! All quantities are fixed-point numbers with six decimal places, held in
//! integers. Every operation rounds once, in a direction that its contract
//! states, so that the contracts pin down each result to the last digit.

pub mod fixed;
pub mod vector;
pub mod geometry;
pub mod camera;
pub mod shader;
pub mod canvas;
pub mod render;
