//! The Capture Reducer: turns one interleaved audio buffer into scaled
//! 2D points and appends them to the Point Ring in frame order.

use vstd::arithmetic::div_mod::lemma_fundamental_div_mod;
use vstd::prelude::*;

use crate::point::Point;
use crate::ring::append_all;
use crate::ring::lemma_append_all_push;
use crate::ring::PointRing;

verus! {

/// The fixed gain: a sample is scaled by this factor to map audio
/// amplitude (thousandths of full scale) to pixel-scale coordinates
/// (thousandths of a pixel).
pub const GAIN: i64 = 500;

/// The largest sample magnitude whose scaled value still fits in a
/// coordinate; a machine limit, far beyond the nominal full scale of
/// `1000` thousandths.
pub const SAMPLE_LIMIT: i64 = 18446744073709551;

/// Every sample of the buffer is small enough to scale without overflow.
pub open spec fn samples_bounded(samples: Seq<i64>) -> bool {
    forall|i: int| 0 <= i < samples.len() ==> -SAMPLE_LIMIT <= #[trigger] samples[i] <= SAMPLE_LIMIT
}

/// How many frames an interleaved buffer holds: every `channels`
/// consecutive samples form one frame, and a trailing partial frame
/// still counts as a frame.
pub open spec fn frame_count(samples: Seq<i64>, channels: nat) -> nat
    recommends
        channels >= 1,
{
    if channels == 0 {
        0
    } else if samples.len() % channels == 0 {
        samples.len() / channels
    } else {
        samples.len() / channels + 1
    }
}

/// The sample of channel `c` in frame `f`, or `0` when the frame does
/// not carry that channel.
pub open spec fn channel_sample(samples: Seq<i64>, channels: nat, f: nat, c: nat) -> int {
    if c < channels && f * channels + c < samples.len() {
        samples[(f * channels + c) as int] as int
    } else {
        0
    }
}

/// The point reduced from frame `f`: channel 0 scaled by the gain as x,
/// channel 1 scaled as y; a missing channel contributes 0.
pub open spec fn point_of_frame(samples: Seq<i64>, channels: nat, f: nat) -> Point {
    Point {
        x: (GAIN * channel_sample(samples, channels, f, 0)) as i64,
        y: (GAIN * channel_sample(samples, channels, f, 1)) as i64,
    }
}

/// All points reduced from an interleaved buffer, in frame order.
pub open spec fn points_of(samples: Seq<i64>, channels: nat) -> Seq<Point> {
    Seq::new(frame_count(samples, channels), |i: int| point_of_frame(samples, channels, i as nat))
}

/// The first sample of a counted frame lies inside the buffer.
proof fn lemma_frame_start_in_range(len: nat, channels: nat, f: nat)
    requires
        1 <= channels,
        f < (if len % channels == 0 {
            len / channels
        } else {
            len / channels + 1
        }),
    ensures
        f * channels < len,
{
    lemma_fundamental_div_mod(len as int, channels as int);
    let q = len as int / channels as int;
    let r = len as int % channels as int;
    if r == 0 {
        assert(f * channels < len) by (nonlinear_arith)
            requires
                1 <= channels,
                0 <= f,
                f < q,
                len == channels * q,
        ;
    } else {
        assert(f * channels < len) by (nonlinear_arith)
            requires
                1 <= channels,
                0 <= f,
                f <= q,
                1 <= r,
                len == channels * q + r,
        ;
    }
}

/// Reduces one interleaved audio buffer to points and appends them to
/// the ring, preserving frame order. One point per frame: channel 0
/// scaled by the gain as x, channel 1 as y, a missing channel as 0.
pub fn capture_buffer(ring: &mut PointRing, samples: &Vec<i64>, channels: usize)
    requires
        old(ring).inv(),
        1 <= channels,
        samples_bounded(samples@),
    ensures
        final(ring).inv(),
        final(ring).cap() == old(ring).cap(),
        final(ring)@ == append_all(old(ring)@, old(ring).cap(), points_of(samples@, channels as nat)),
        final(ring)@.len() <= final(ring).cap(),
{
    let ghost all = points_of(samples@, channels as nat);
    let ghost orig_view = old(ring)@;
    let ghost orig_cap = old(ring).cap();
    let len: usize = samples.len();
    let whole: usize = len / channels;
    let rem: usize = len % channels;
    proof {
        if rem != 0 {
            lemma_fundamental_div_mod(len as int, channels as int);
            assert(whole + 1 <= len) by (nonlinear_arith)
                requires
                    len == channels * whole + rem,
                    1 <= rem,
                    1 <= channels,
                    0 <= whole,
            ;
        }
    }
    let n: usize = if rem == 0 {
        whole
    } else {
        whole + 1
    };
    proof {
        assert(n as nat == frame_count(samples@, channels as nat));
        assert(all.take(0) =~= Seq::<Point>::empty());
    }
    let mut f: usize = 0;
    while f < n
        invariant
            ring.inv(),
            ring.cap() == orig_cap,
            1 <= channels,
            samples_bounded(samples@),
            len == samples@.len(),
            n as nat == frame_count(samples@, channels as nat),
            all == points_of(samples@, channels as nat),
            f <= n,
            ring@ == append_all(orig_view, orig_cap, all.take(f as int)),
        decreases n - f,
    {
        proof {
            lemma_frame_start_in_range(len as nat, channels as nat, f as nat);
        }
        let base: usize = f * channels;
        let sx: i64 = samples[base];
        let x: i64 = sx * GAIN;
        let y: i64 = if channels >= 2 && base + 1 < len {
            let sy: i64 = samples[base + 1];
            sy * GAIN
        } else {
            0
        };
        let p = Point { x, y };
        proof {
            assert(channel_sample(samples@, channels as nat, f as nat, 0) == sx as int);
            assert(p == point_of_frame(samples@, channels as nat, f as nat));
            assert(all[f as int] == p);
        }
        ring.append(p);
        proof {
            lemma_append_all_push(orig_view, orig_cap, all.take(f as int), p);
            assert(all.take(f as int).push(p) =~= all.take(f as int + 1));
        }
        f = f + 1;
    }
    proof {
        assert(all.take(n as int) =~= all);
        ring.lemma_len_at_most_cap();
    }
}

} // verus!
