use audio_lines::point::Point;
use audio_lines::ring::PointRing;

fn pt(x: i64, y: i64) -> Point {
    Point { x, y }
}

#[test]
fn capacity_invariant_appends() {
    // Appending N + k points never grows the ring past N, and keeps the
    // last N appended, in original order.
    let n: usize = 4;
    let mut ring = PointRing::new(n);
    let mut appended: Vec<Point> = Vec::new();
    for i in 0..7i64 {
        ring.append(pt(i, -i));
        appended.push(pt(i, -i));
        assert!(ring.len() <= n);
    }
    assert_eq!(ring.len(), n);
    let kept = ring.iterate();
    assert_eq!(&kept[..], &appended[3..]);
}

#[test]
fn fifo_eviction_drain() {
    // Appending P1..Pm with m > N then draining yields exactly the last
    // N points, in that order.
    let mut ring = PointRing::new(3);
    for i in 1..=5i64 {
        ring.append(pt(10 * i, i));
    }
    let out = ring.drain_all();
    assert_eq!(out, vec![pt(30, 3), pt(40, 4), pt(50, 5)]);
}

#[test]
fn drain_totality() {
    // Draining a ring of length L returns exactly L points in insertion
    // order and leaves the ring empty.
    let mut ring = PointRing::new(8);
    ring.append(pt(1, 2));
    ring.append(pt(3, 4));
    ring.append(pt(5, 6));
    assert_eq!(ring.len(), 3);
    let out = ring.drain_all();
    assert_eq!(out, vec![pt(1, 2), pt(3, 4), pt(5, 6)]);
    assert_eq!(ring.len(), 0);
    assert_eq!(ring.drain_all(), vec![]);
}

#[test]
fn append_exactly_capacity() {
    let mut ring = PointRing::new(3);
    ring.append(pt(1, 0));
    ring.append(pt(2, 0));
    ring.append(pt(3, 0));
    assert_eq!(ring.len(), 3);
    assert_eq!(ring.iterate(), vec![pt(1, 0), pt(2, 0), pt(3, 0)]);
}

#[test]
fn capacity_one_keeps_newest() {
    let mut ring = PointRing::new(1);
    ring.append(pt(1, 1));
    ring.append(pt(2, 2));
    ring.append(pt(3, 3));
    assert_eq!(ring.len(), 1);
    assert_eq!(ring.get(0), pt(3, 3));
}

#[test]
fn clear_discards_everything() {
    let mut ring = PointRing::new(4);
    ring.append(pt(7, 8));
    ring.append(pt(9, 10));
    ring.clear();
    assert_eq!(ring.len(), 0);
    assert_eq!(ring.capacity(), 4);
    ring.append(pt(1, 1));
    assert_eq!(ring.iterate(), vec![pt(1, 1)]);
}

#[test]
fn iterate_does_not_mutate() {
    let mut ring = PointRing::new(4);
    ring.append(pt(1, 1));
    ring.append(pt(2, 2));
    let first = ring.iterate();
    let second = ring.iterate();
    assert_eq!(first, second);
    assert_eq!(ring.len(), 2);
}

#[test]
fn get_reads_in_insertion_order() {
    let mut ring = PointRing::new(2);
    ring.append(pt(1, 1));
    ring.append(pt(2, 2));
    ring.append(pt(3, 3));
    // Oldest first, after one eviction the head has moved inside the
    // backing store.
    assert_eq!(ring.get(0), pt(2, 2));
    assert_eq!(ring.get(1), pt(3, 3));
}
