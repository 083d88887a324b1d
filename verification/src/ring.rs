//! The Point Ring: a fixed-capacity, insertion-ordered point buffer that
//! evicts its oldest element when an append would exceed the capacity.

use vstd::arithmetic::div_mod::lemma_mod_add_multiples_vanish;
use vstd::arithmetic::div_mod::lemma_small_mod;
use vstd::prelude::*;

use crate::point::Point;

verus! {

/// One append on the mathematical model: push `p` to the back, first
/// evicting the oldest element when the ring already holds `cap` points.
pub open spec fn push_evict(s: Seq<Point>, cap: nat, p: Point) -> Seq<Point> {
    if s.len() >= cap {
        s.drop_first().push(p)
    } else {
        s.push(p)
    }
}

/// Appending a whole sequence of points, oldest first.
pub open spec fn append_all(s: Seq<Point>, cap: nat, ps: Seq<Point>) -> Seq<Point>
    decreases ps.len(),
{
    if ps.len() == 0 {
        s
    } else {
        push_evict(append_all(s, cap, ps.drop_last()), cap, ps.last())
    }
}

/// A fixed-capacity ring of points, oldest first.
///
/// The backing vector is allocated once, at the full capacity; `head` is
/// the slot of the oldest stored point and `len` the number stored.
pub struct PointRing {
    buf: Vec<Point>,
    head: usize,
    len: usize,
}

impl View for PointRing {
    type V = Seq<Point>;

    /// The stored points in insertion order, oldest first.
    closed spec fn view(&self) -> Seq<Point> {
        Seq::new(
            self.len as nat,
            |i: int| self.buf@[(self.head + i) % (self.buf@.len() as int)],
        )
    }
}

impl PointRing {
    /// The fixed capacity: the ring never holds more points than this.
    pub closed spec fn cap(&self) -> nat {
        self.buf@.len()
    }

    /// Well-formedness: the backing store is fully allocated and the head
    /// index and length stay inside it.
    pub closed spec fn inv(&self) -> bool {
        &&& self.buf@.len() >= 1
        &&& self.head < self.buf@.len()
        &&& self.len <= self.buf@.len()
    }

    /// A well-formed ring never holds more points than its capacity.
    pub proof fn lemma_len_at_most_cap(&self)
        requires
            self.inv(),
        ensures
            self@.len() <= self.cap(),
    {
    }

    /// Creates an empty ring that will hold at most `capacity` points.
    pub fn new(capacity: usize) -> (r: PointRing)
        requires
            1 <= capacity,
        ensures
            r.inv(),
            r.cap() == capacity as nat,
            r@ == Seq::<Point>::empty(),
    {
        let mut buf: Vec<Point> = Vec::new();
        let mut i: usize = 0;
        while i < capacity
            invariant
                i <= capacity,
                buf@.len() == i,
            decreases capacity - i,
        {
            buf.push(Point { x: 0, y: 0 });
            i = i + 1;
        }
        let r = PointRing { buf, head: 0, len: 0 };
        proof {
            assert(r@ =~= Seq::<Point>::empty());
        }
        r
    }

    /// Number of points currently stored.
    pub fn len(&self) -> (n: usize)
        ensures
            n as nat == self@.len(),
    {
        self.len
    }

    /// The fixed capacity.
    pub fn capacity(&self) -> (c: usize)
        ensures
            c as nat == self.cap(),
    {
        self.buf.len()
    }

    /// The slot of the `i`-th stored point, computed without overflow.
    fn slot(&self, i: usize) -> (idx: usize)
        requires
            self.inv(),
            (i as nat) < self.cap(),
        ensures
            idx < self.buf@.len(),
            idx as int == (self.head + i) % (self.buf@.len() as int),
    {
        let cap: usize = self.buf.len();
        let idx: usize = if i < cap - self.head {
            self.head + i
        } else {
            i - (cap - self.head)
        };
        proof {
            let m = cap as int;
            if i < cap - self.head {
                lemma_small_mod((self.head + i) as nat, m as nat);
            } else {
                lemma_mod_add_multiples_vanish((self.head + i) - m, m);
                lemma_small_mod(((self.head + i) - m) as nat, m as nat);
            }
        }
        idx
    }

    /// Read-only access to the `i`-th stored point, oldest first.
    pub fn get(&self, i: usize) -> (p: Point)
        requires
            self.inv(),
            (i as nat) < self@.len(),
        ensures
            p == self@[i as int],
    {
        let idx: usize = self.slot(i);
        self.buf[idx]
    }

    /// Read-only traversal: the stored points in insertion order.
    pub fn iterate(&self) -> (out: Vec<Point>)
        requires
            self.inv(),
        ensures
            out@ == self@,
    {
        let mut out: Vec<Point> = Vec::new();
        let n: usize = self.len;
        let mut i: usize = 0;
        while i < n
            invariant
                self.inv(),
                i <= n,
                n as nat == self@.len(),
                out@.len() == i,
                forall|j: int| 0 <= j < i ==> out@[j] == self@[j],
            decreases n - i,
        {
            let p = self.get(i);
            out.push(p);
            i = i + 1;
        }
        proof {
            assert(out@ =~= self@);
        }
        out
    }

    /// Adds one point at the back; when the ring is full, the oldest
    /// point is evicted first. Never fails.
    pub fn append(&mut self, p: Point)
        requires
            old(self).inv(),
        ensures
            final(self).inv(),
            final(self).cap() == old(self).cap(),
            final(self)@ == push_evict(old(self)@, old(self).cap(), p),
            final(self)@.len() <= final(self).cap(),
    {
        let cap: usize = self.buf.len();
        if self.len == cap {
            let idx: usize = self.head;
            self.buf.set(idx, p);
            self.head = if self.head + 1 == cap {
                0
            } else {
                self.head + 1
            };
            proof {
                let m = cap as int;
                let h = old(self).head as int;
                assert((h + 1) % m == self.head as int) by {
                    if h + 1 == m {
                        lemma_mod_add_multiples_vanish(0, m);
                        lemma_small_mod(0nat, m as nat);
                    } else {
                        lemma_small_mod((h + 1) as nat, m as nat);
                    }
                };
                assert forall|i: int| 0 <= i < m implies self@[i] == push_evict(
                    old(self)@,
                    old(self).cap(),
                    p,
                )[i] by {
                    lemma_mod_window(h + 1 + i, m);
                    lemma_mod_window(self.head + i, m);
                    if i < m - 1 {
                        lemma_mod_window(h + (i + 1), m);
                        assert(old(self)@.drop_first()[i] == old(self)@[i + 1]);
                    } else {
                        lemma_small_mod(h as nat, m as nat);
                    }
                };
                assert(self@ =~= push_evict(old(self)@, old(self).cap(), p));
            }
        } else {
            let idx: usize = self.slot(self.len);
            self.buf.set(idx, p);
            self.len = self.len + 1;
            proof {
                let m = cap as int;
                let h = self.head as int;
                let l = old(self).len as int;
                assert forall|i: int| 0 <= i < self.len as int implies self@[i] == push_evict(
                    old(self)@,
                    old(self).cap(),
                    p,
                )[i] by {
                    lemma_mod_window(h + i, m);
                    lemma_mod_window(h + l, m);
                };
                assert(self@ =~= push_evict(old(self)@, old(self).cap(), p));
            }
        }
    }

    /// Empties the ring; whatever was stored is discarded.
    pub fn clear(&mut self)
        requires
            old(self).inv(),
        ensures
            final(self).inv(),
            final(self).cap() == old(self).cap(),
            final(self)@ == Seq::<Point>::empty(),
    {
        self.len = 0;
        proof {
            assert(self@ =~= Seq::<Point>::empty());
        }
    }

    /// Returns every stored point in insertion order and empties the ring.
    pub fn drain_all(&mut self) -> (out: Vec<Point>)
        requires
            old(self).inv(),
        ensures
            final(self).inv(),
            final(self).cap() == old(self).cap(),
            out@ == old(self)@,
            final(self)@ == Seq::<Point>::empty(),
    {
        let out = self.iterate();
        self.clear();
        out
    }
}

/// Capacity invariant: starting from any ring content of at most `cap`
/// points, appending the points `ps` in order leaves exactly the last
/// `min(cap, s.len() + ps.len())` of the combined sequence, in original
/// order — so the length never exceeds `cap`.
pub proof fn lemma_capacity_invariant(s: Seq<Point>, cap: nat, ps: Seq<Point>)
    requires
        1 <= cap,
        s.len() <= cap,
    ensures
        append_all(s, cap, ps).len() <= cap,
        append_all(s, cap, ps) == (s + ps).skip(
            if s.len() + ps.len() > cap {
                s.len() + ps.len() - cap
            } else {
                0
            },
        ),
    decreases ps.len(),
{
    let total = s.len() + ps.len();
    let drop = if total > cap {
        total - cap
    } else {
        0
    };
    if ps.len() == 0 {
        assert((s + ps).skip(0) =~= s);
    } else {
        let ps0 = ps.drop_last();
        lemma_capacity_invariant(s, cap, ps0);
        let prev = append_all(s, cap, ps0);
        let total0 = s.len() + ps0.len();
        let drop0 = if total0 > cap {
            total0 - cap
        } else {
            0
        };
        assert(prev.len() == total0 - drop0);
        if prev.len() >= cap {
            assert(prev.drop_first() =~= (s + ps0).skip(drop0 + 1));
            assert((s + ps0).skip(drop0 + 1).push(ps.last()) =~= (s + ps).skip(drop as int));
        } else {
            assert(drop0 == 0 && drop == 0);
            assert((s + ps0).skip(0).push(ps.last()) =~= (s + ps).skip(0));
        }
    }
}

/// FIFO eviction: appending `m > cap` points to an empty ring leaves
/// exactly the last `cap` of them, in order.
pub proof fn lemma_fifo_eviction(cap: nat, ps: Seq<Point>)
    requires
        1 <= cap,
        ps.len() >= cap,
    ensures
        append_all(Seq::empty(), cap, ps) == ps.skip(ps.len() - cap),
{
    lemma_capacity_invariant(Seq::empty(), cap, ps);
    if ps.len() > cap {
        assert((Seq::<Point>::empty() + ps).skip(ps.len() - cap) =~= ps.skip(ps.len() - cap));
    } else {
        assert((Seq::<Point>::empty() + ps).skip(0) =~= ps.skip(ps.len() - cap));
    }
}

/// Appending one more point after a whole sequence is one more
/// `push_evict` step.
pub proof fn lemma_append_all_push(s: Seq<Point>, cap: nat, ps: Seq<Point>, p: Point)
    ensures
        append_all(s, cap, ps.push(p)) == push_evict(append_all(s, cap, ps), cap, p),
{
    assert(ps.push(p).drop_last() =~= ps);
    assert(ps.push(p).last() == p);
}

/// For `0 <= a < 2m`, the remainder of `a` by `m` subtracts `m` at most once.
proof fn lemma_mod_window(a: int, m: int)
    requires
        1 <= m,
        0 <= a < 2 * m,
    ensures
        a % m == if a < m {
            a
        } else {
            a - m
        },
{
    if a < m {
        lemma_small_mod(a as nat, m as nat);
    } else {
        lemma_mod_add_multiples_vanish(a - m, m);
        lemma_small_mod((a - m) as nat, m as nat);
    }
}

} // verus!
