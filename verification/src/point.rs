use vstd::prelude::*;

verus! {

/// A 2D point derived from one stereo audio frame.
///
/// Coordinates are fixed-point integers in thousandths of a pixel:
/// `x == 100_000` stands for `100.0`.
#[derive(Clone, Copy, Debug, PartialEq, Eq, Structural)]
pub struct Point {
    pub x: i64,
    pub y: i64,
}

} // verus!
