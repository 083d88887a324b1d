//! The Frame Renderer: walks the stored points in insertion order, keeps
//! a segment for each adjacent pair closer than the distance threshold,
//! then clears the ring for the next accumulation window.

use vstd::prelude::*;

use crate::point::Point;
use crate::ring::PointRing;

verus! {

/// The distance threshold, in thousandths of a pixel: adjacent points at
/// least this far apart are treated as a break in the line.
pub const NEAR_LIMIT: i64 = 25000;

/// One line segment of the draw list, from `a` to `b`.
#[derive(Clone, Copy, Debug, PartialEq, Eq, Structural)]
pub struct Segment {
    pub a: Point,
    pub b: Point,
}

/// Squared Euclidean distance between two points.
pub open spec fn dist_sq(p: Point, q: Point) -> int {
    (p.x - q.x) * (p.x - q.x) + (p.y - q.y) * (p.y - q.y)
}

/// Two points are near when their Euclidean distance is strictly under
/// the threshold, stated on squares to stay in the integers.
pub open spec fn near(p: Point, q: Point) -> bool {
    dist_sq(p, q) < NEAR_LIMIT * NEAR_LIMIT
}

/// The draw list of a point sequence: one segment for each adjacent pair
/// of near points, in order; a far pair is skipped as a break.
pub open spec fn segments_of(ps: Seq<Point>) -> Seq<Segment>
    decreases ps.len(),
{
    if ps.len() < 2 {
        Seq::empty()
    } else if near(ps[ps.len() - 2], ps[ps.len() - 1]) {
        segments_of(ps.drop_last()).push(Segment { a: ps[ps.len() - 2], b: ps[ps.len() - 1] })
    } else {
        segments_of(ps.drop_last())
    }
}

/// Decides whether two points are near, exactly as `near` states.
pub fn near_points(p: Point, q: Point) -> (r: bool)
    ensures
        r == near(p, q),
{
    let dx: i128 = p.x as i128 - q.x as i128;
    let dy: i128 = p.y as i128 - q.y as i128;
    let lim: i128 = NEAR_LIMIT as i128;
    if dx > lim || dx < -lim || dy > lim || dy < -lim {
        proof {
            assert(!near(p, q)) by (nonlinear_arith)
                requires
                    dx == p.x - q.x,
                    dy == p.y - q.y,
                    dx > lim || dx < -lim || dy > lim || dy < -lim,
                    lim == NEAR_LIMIT as int,
            ;
        }
        false
    } else {
        proof {
            assert(0 <= dx * dx <= lim * lim && 0 <= dy * dy <= lim * lim) by (nonlinear_arith)
                requires
                    -lim <= dx <= lim,
                    -lim <= dy <= lim,
                    lim == NEAR_LIMIT as int,
            ;
        }
        let d2: i128 = dx * dx + dy * dy;
        d2 < lim * lim
    }
}

/// Builds the draw list for a point sequence: a segment for each
/// adjacent pair of points closer than the threshold, in order.
pub fn line_segments(points: &Vec<Point>) -> (segs: Vec<Segment>)
    ensures
        segs@ == segments_of(points@),
{
    let mut segs: Vec<Segment> = Vec::new();
    if points.len() < 2 {
        return segs;
    }
    let mut i: usize = 1;
    while i < points.len()
        invariant
            1 <= i <= points@.len(),
            segs@ == segments_of(points@.take(i as int)),
        decreases points@.len() - i,
    {
        let a = points[i - 1];
        let b = points[i];
        if near_points(a, b) {
            segs.push(Segment { a, b });
        }
        proof {
            let t = points@.take(i as int + 1);
            assert(t.drop_last() =~= points@.take(i as int));
            assert(t[t.len() - 2] == a && t[t.len() - 1] == b);
        }
        i = i + 1;
    }
    proof {
        assert(points@.take(points@.len() as int) =~= points@);
    }
    segs
}

/// One render pass: reads the ring's points in insertion order, builds
/// the draw list under the distance rule, then clears the ring so that
/// nothing carries over to the next frame.
pub fn render_pass(ring: &mut PointRing) -> (segs: Vec<Segment>)
    requires
        old(ring).inv(),
    ensures
        final(ring).inv(),
        final(ring).cap() == old(ring).cap(),
        segs@ == segments_of(old(ring)@),
        final(ring)@ == Seq::<Point>::empty(),
{
    let pts = ring.drain_all();
    line_segments(&pts)
}

/// A render pass over fewer than two points draws nothing; in
/// particular, rendering an empty ring draws zero segments.
pub proof fn lemma_render_short(ps: Seq<Point>)
    requires
        ps.len() < 2,
    ensures
        segments_of(ps) == Seq::<Segment>::empty(),
{
}

} // verus!
