use audio_lines::capture::capture_buffer;
use audio_lines::capture::GAIN;
use audio_lines::capture::SAMPLE_LIMIT;
use audio_lines::point::Point;
use audio_lines::ring::PointRing;

fn pt(x: i64, y: i64) -> Point {
    Point { x, y }
}

#[test]
fn reduction_correctness() {
    // A frame of (0.2, -0.4) full scale — samples in thousandths — with
    // gain 500 appends the point (100.0, -200.0) in thousandths of a pixel.
    let mut ring = PointRing::new(2048);
    let samples: Vec<i64> = vec![200, -400];
    capture_buffer(&mut ring, &samples, 2);
    assert_eq!(ring.iterate(), vec![pt(100_000, -200_000)]);
}

#[test]
fn empty_buffer_appends_nothing() {
    let mut ring = PointRing::new(8);
    let samples: Vec<i64> = Vec::new();
    capture_buffer(&mut ring, &samples, 2);
    assert_eq!(ring.len(), 0);
}

#[test]
fn mono_frame_missing_channel_is_zero() {
    // With one channel, the missing y channel contributes 0.
    let mut ring = PointRing::new(8);
    let samples: Vec<i64> = vec![300];
    capture_buffer(&mut ring, &samples, 1);
    assert_eq!(ring.iterate(), vec![pt(150_000, 0)]);
}

#[test]
fn partial_trailing_frame_counts() {
    // Three samples at two channels: the trailing frame has only its x
    // sample; the missing channel contributes 0.
    let mut ring = PointRing::new(8);
    let samples: Vec<i64> = vec![200, -400, 100];
    capture_buffer(&mut ring, &samples, 2);
    assert_eq!(ring.iterate(), vec![pt(100_000, -200_000), pt(50_000, 0)]);
}

#[test]
fn channels_beyond_two_are_ignored() {
    let mut ring = PointRing::new(8);
    let samples: Vec<i64> = vec![200, -400, 999, 100, 100, 999];
    capture_buffer(&mut ring, &samples, 3);
    assert_eq!(ring.iterate(), vec![pt(100_000, -200_000), pt(50_000, 50_000)]);
}

#[test]
fn capture_preserves_frame_order_and_evicts() {
    // A buffer longer than the capacity leaves the last frames, in order.
    let mut ring = PointRing::new(2);
    let samples: Vec<i64> = vec![1, 1, 2, 2, 3, 3];
    capture_buffer(&mut ring, &samples, 2);
    assert_eq!(ring.iterate(), vec![pt(1000, 1000), pt(1500, 1500)]);
}

#[test]
fn gain_is_exactly_five_hundred() {
    assert_eq!(GAIN, 500);
    let mut ring = PointRing::new(4);
    let samples: Vec<i64> = vec![1000, -1000];
    capture_buffer(&mut ring, &samples, 2);
    // Full scale maps to 500 pixels.
    assert_eq!(ring.get(0), pt(500_000, -500_000));
}

#[test]
fn sample_limit_scales_without_overflow() {
    let mut ring = PointRing::new(4);
    let samples: Vec<i64> = vec![SAMPLE_LIMIT, -SAMPLE_LIMIT];
    capture_buffer(&mut ring, &samples, 2);
    assert_eq!(ring.get(0), pt(SAMPLE_LIMIT * 500, -SAMPLE_LIMIT * 500));
}
