//! Playback modes and the ring buffer of recent samples that feeds the
//! spectrum display.
use vstd::prelude::*;

verus! {

/// What happens when a track ends: stop after the list, repeat the track,
/// or wrap around the list.
#[derive(Clone, Copy, Debug, PartialEq, Eq, Structural)]
pub enum RepeatMode {
    Off,
    One,
    All,
}

/// A fixed-capacity circular buffer that keeps the most recent values pushed
/// into it, oldest first.
pub struct VizRing<T> {
    buf: Vec<T>,
    head: usize,
    len: usize,
}

/// Position `off` places after `head` in a ring of `cap` slots.
pub open spec fn ring_pos(head: int, off: int, cap: int) -> int {
    (head + off) % cap
}

/// `(head + off) % cap`, computed without overflow.
fn ring_index(head: usize, off: usize, cap: usize) -> (r: usize)
    requires
        head < cap,
        off < cap,
    ensures
        r as int == ring_pos(head as int, off as int, cap as int),
        r < cap,
{
    if off < cap - head {
        proof {
            vstd::arithmetic::div_mod::lemma_small_mod((head + off) as nat, cap as nat);
        }
        head + off
    } else {
        proof {
            vstd::arithmetic::div_mod::lemma_small_mod((head + off - cap) as nat, cap as nat);
            vstd::arithmetic::div_mod::lemma_mod_add_multiples_vanish(head + off - cap, cap as int);
        }
        off - (cap - head)
    }
}

impl<T: Copy> VizRing<T> {
    /// Capacity: how many values the ring keeps.
    pub closed spec fn capacity(&self) -> nat {
        self.buf@.len()
    }

    /// The ring's internal layout is consistent.
    pub closed spec fn wf(&self) -> bool {
        &&& self.len <= self.buf@.len()
        &&& (self.buf@.len() > 0 ==> self.head < self.buf@.len())
        &&& (self.buf@.len() == 0 ==> self.head == 0 && self.len == 0)
    }

    /// The values held, oldest first.
    pub closed spec fn contents(&self) -> Seq<T> {
        Seq::new(
            self.len as nat,
            |k: int| self.buf@[ring_pos(self.head as int, k, self.buf@.len() as int)],
        )
    }

    /// How many values the ring keeps.
    pub fn capacity_len(&self) -> (r: usize)
        ensures
            r == self.capacity(),
    {
        self.buf.len()
    }

    /// An empty ring that keeps up to `capacity` values; `fill` only
    /// initialises storage.
    pub fn new(capacity: usize, fill: T) -> (r: Self)
        ensures
            r.wf(),
            r.capacity() == capacity,
            r.contents() == Seq::<T>::empty(),
            r.contents().len() <= r.capacity(),
    {
        let mut buf: Vec<T> = Vec::new();
        let mut i: usize = 0;
        while i < capacity
            invariant
                i <= capacity,
                buf@.len() == i,
            decreases capacity - i,
        {
            buf.push(fill);
            i = i + 1;
        }
        let r = VizRing { buf, head: 0, len: 0 };
        assert(r.contents() =~= Seq::<T>::empty());
        r
    }

    /// Appends `s`; when the ring is full the oldest value is dropped.
    pub fn push(&mut self, s: T)
        requires
            old(self).wf(),
            old(self).capacity() > 0,
        ensures
            final(self).wf(),
            final(self).capacity() == old(self).capacity(),
            final(self).contents().len() <= final(self).capacity(),
            final(self).contents() == (if old(self).contents().len() < old(self).capacity() {
                old(self).contents().push(s)
            } else {
                old(self).contents().drop_first().push(s)
            }),
    {
        let cap = self.buf.len();
        let ghost before = self.contents();
        if self.len < cap {
            let idx = ring_index(self.head, self.len, cap);
            self.buf.set(idx, s);
            self.len = self.len + 1;
            assert forall|k: int| 0 <= k < self.len - 1 implies ring_pos(
                self.head as int,
                k,
                cap as int,
            ) != idx by {
                vstd::arithmetic::div_mod::lemma_small_mod(k as nat, cap as nat);
                lemma_ring_pos_distinct(self.head as int, k, (self.len - 1) as int, cap as int);
            }
            assert(self.contents() =~= before.push(s));
        } else {
            let h = self.head;
            self.buf.set(h, s);
            self.head = if h + 1 < cap {
                h + 1
            } else {
                0
            };
            proof {
                assert forall|k: int| 0 <= k < cap implies #[trigger] ring_pos(
                    self.head as int,
                    k,
                    cap as int,
                ) == ring_pos(h as int, k + 1, cap as int) by {
                    if h + 1 < cap {
                    } else {
                        vstd::arithmetic::div_mod::lemma_mod_add_multiples_vanish(k, cap as int);
                    }
                }
                assert forall|j: int| 1 <= j < cap implies #[trigger] ring_pos(h as int, j, cap as int)
                    != h by {
                    lemma_ring_pos_distinct(h as int, j, 0, cap as int);
                    vstd::arithmetic::div_mod::lemma_small_mod(h as nat, cap as nat);
                }
                assert(ring_pos(h as int, cap as int, cap as int) == h) by {
                    vstd::arithmetic::div_mod::lemma_mod_add_multiples_vanish(h as int, cap as int);
                    vstd::arithmetic::div_mod::lemma_small_mod(h as nat, cap as nat);
                }
            }
            assert(self.contents() =~= before.drop_first().push(s));
        }
    }

    /// Appends each of `samples` in order.
    pub fn push_batch(&mut self, samples: &[T])
        requires
            old(self).wf(),
            old(self).capacity() > 0 || samples@.len() == 0,
        ensures
            final(self).wf(),
            final(self).capacity() == old(self).capacity(),
            final(self).contents().len() <= final(self).capacity(),
            final(self).contents() == keep_last(
                old(self).contents() + samples@,
                old(self).capacity() as int,
            ),
    {
        let ghost c0 = self.contents();
        let mut i: usize = 0;
        assert(samples@.subrange(0, 0) =~= Seq::<T>::empty());
        assert(c0 + Seq::<T>::empty() =~= c0);
        proof {
            self.lemma_contents_bound();
            lemma_keep_last_short(c0, self.capacity() as int);
        }
        while i < samples.len()
            invariant
                self.wf(),
                self.capacity() == old(self).capacity(),
                self.capacity() > 0 || samples@.len() == 0,
                c0 == old(self).contents(),
                i <= samples@.len(),
                self.contents() == keep_last(
                    c0 + samples@.subrange(0, i as int),
                    self.capacity() as int,
                ),
            decreases samples@.len() - i,
        {
            self.push(samples[i]);
            proof {
                let all = c0 + samples@.subrange(0, i as int);
                assert(c0 + samples@.subrange(0, i + 1) =~= all.push(samples@[i as int]));
                lemma_keep_last_push(all, samples@[i as int], self.capacity() as int);
            }
            i = i + 1;
        }
        assert(samples@.subrange(0, samples@.len() as int) =~= samples@);
        proof {
            self.lemma_contents_bound();
        }
    }

    /// A ring never holds more values than its capacity.
    pub proof fn lemma_contents_bound(&self)
        requires
            self.wf(),
        ensures
            self.contents().len() <= self.capacity(),
    {
    }

    /// The most recent `min(n, count)` values, oldest first.
    pub fn latest(&self, n: usize) -> (r: Vec<T>)
        requires
            self.wf(),
        ensures
            r@ == self.contents().subrange(
                self.contents().len() - min(n as int, self.contents().len() as int),
                self.contents().len() as int,
            ),
    {
        let take: usize = if n < self.len {
            n
        } else {
            self.len
        };
        let cap = self.buf.len();
        let mut out: Vec<T> = Vec::new();
        let mut k: usize = 0;
        let ghost c = self.contents();
        while k < take
            invariant
                take <= self.len,
                self.wf(),
                cap == self.buf@.len(),
                c == self.contents(),
                k <= take,
                out@ =~= c.subrange(self.len - take, self.len - take + k),
            decreases take - k,
        {
            let off: usize = self.len - take + k;
            let idx = ring_index(self.head, off, cap);
            out.push(self.buf[idx]);
            k = k + 1;
        }
        out
    }

    /// The most recent `n` values, oldest first, padded at the end with
    /// `fill` when fewer than `n` are held.
    pub fn latest_padded(&self, n: usize, fill: T) -> (r: Vec<T>)
        requires
            self.wf(),
        ensures
            r@.len() == n,
            r@ == self.contents().subrange(
                self.contents().len() - min(n as int, self.contents().len() as int),
                self.contents().len() as int,
            ) + Seq::new((n - min(n as int, self.contents().len() as int)) as nat, |i: int| fill),
    {
        let mut out = self.latest(n);
        let ghost got = out@;
        let mut k: usize = out.len();
        while k < n
            invariant
                got.len() <= k <= n,
                out@ =~= got + Seq::new((k - got.len()) as nat, |i: int| fill),
            decreases n - k,
        {
            out.push(fill);
            k = k + 1;
        }
        out
    }
}

/// The smaller of two integers.
pub open spec fn min(a: int, b: int) -> int {
    if a < b {
        a
    } else {
        b
    }
}

/// The last `cap` elements of `s` (all of `s` when it is shorter).
pub open spec fn keep_last<T>(s: Seq<T>, cap: int) -> Seq<T> {
    if s.len() <= cap {
        s
    } else {
        s.subrange(s.len() - cap, s.len() as int)
    }
}

/// Keeping the last `cap` values after the history `h`, then adding the
/// batch `a`, is the same as keeping the last `cap` values of `h` followed by
/// `a`: two batches pushed in turn act as their concatenation pushed once.
pub proof fn law_batches_concat<T>(h: Seq<T>, a: Seq<T>, cap: int)
    requires
        cap >= 0,
    ensures
        keep_last(keep_last(h, cap) + a, cap) == keep_last(h + a, cap),
{
    let kh = keep_last(h, cap);
    if h.len() > cap {
        let x = kh + a;
        let y = h + a;
        if x.len() <= cap {
            assert(keep_last(x, cap) =~= keep_last(y, cap));
        } else {
            assert(keep_last(x, cap) =~= keep_last(y, cap));
        }
    } else {
        assert(kh == h);
    }
}

/// Pushing an empty batch changes nothing.
pub proof fn law_empty_batch<T>(c: Seq<T>, cap: int)
    requires
        c.len() <= cap,
    ensures
        keep_last(c + Seq::<T>::empty(), cap) == c,
{
    assert(c + Seq::<T>::empty() =~= c);
}

/// Of a ring whose values are the last `cap` of the history `h`, the most
/// recent `min(n, count)` values are the last `min(n, cap, |h|)` values of `h`.
pub proof fn law_latest_of_history<T>(h: Seq<T>, cap: int, n: int)
    requires
        cap >= 0,
        n >= 0,
    ensures
        ({
            let c = keep_last(h, cap);
            let k = min(n, c.len() as int);
            &&& k == min(n, min(cap, h.len() as int))
            &&& c.subrange(c.len() - k, c.len() as int) == h.subrange(h.len() - k, h.len() as int)
        }),
{
    let c = keep_last(h, cap);
    let k = min(n, c.len() as int);
    assert(c.subrange(c.len() - k, c.len() as int) =~= h.subrange(h.len() - k, h.len() as int));
}

proof fn lemma_keep_last_short<T>(s: Seq<T>, cap: int)
    requires
        s.len() <= cap,
    ensures
        keep_last(s, cap) == s,
{
}

proof fn lemma_keep_last_push<T>(s: Seq<T>, x: T, cap: int)
    requires
        cap > 0,
    ensures
        keep_last(s.push(x), cap) == (if keep_last(s, cap).len() < cap {
            keep_last(s, cap).push(x)
        } else {
            keep_last(s, cap).drop_first().push(x)
        }),
{
    assert(keep_last(s.push(x), cap) =~= (if keep_last(s, cap).len() < cap {
        keep_last(s, cap).push(x)
    } else {
        keep_last(s, cap).drop_first().push(x)
    }));
}

proof fn lemma_ring_pos_distinct(head: int, a: int, b: int, cap: int)
    requires
        0 <= head < cap,
        0 <= a < cap,
        0 <= b < cap,
        a != b,
    ensures
        ring_pos(head, a, cap) != ring_pos(head, b, cap),
{
    let x = head + a;
    let y = head + b;
    if x < cap {
        vstd::arithmetic::div_mod::lemma_small_mod(x as nat, cap as nat);
    } else {
        vstd::arithmetic::div_mod::lemma_small_mod((x - cap) as nat, cap as nat);
        vstd::arithmetic::div_mod::lemma_mod_add_multiples_vanish(x - cap, cap);
    }
    if y < cap {
        vstd::arithmetic::div_mod::lemma_small_mod(y as nat, cap as nat);
    } else {
        vstd::arithmetic::div_mod::lemma_small_mod((y - cap) as nat, cap as nat);
        vstd::arithmetic::div_mod::lemma_mod_add_multiples_vanish(y - cap, cap);
    }
}

} // verus!
