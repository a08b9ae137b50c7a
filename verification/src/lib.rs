//! A grayscale distance field driven by a swarm of drifting points.
//!
//! Every pixel of a canvas is shaded by its distance to the nearest point of
//! a [`field::PointField`]; the field moves one tick at a time and
//! [`render::render`] repaints the whole [`canvas::Canvas`] from it.
//!
//! All of the arithmetic is done on whole numbers. Positions are whole
//! pixels, speeds are eightieths of a pixel per tick, and distances are
//! rounded down to whole pixels before they are turned into brightness.

pub mod canvas;
pub mod config;
pub mod field;
pub mod geometry;
pub mod random;
pub mod render;
