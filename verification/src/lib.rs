//! An audio-reactive line visualizer core.
//!
//! Live audio frames are reduced to 2D points, accumulated in a
//! fixed-capacity FIFO-evicting ring, and rendered once per display
//! frame as line segments between points that lie close together.
//!
//! All coordinates and samples are fixed-point integers in thousandths:
//! a sample of `200` stands for `0.2` of full scale, a coordinate of
//! `100_000` stands for `100.0` pixels.

pub mod capture;
pub mod point;
pub mod render;
pub mod ring;
