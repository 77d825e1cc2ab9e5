//! A two-state frame timer over a monotonic clock.
//!
//! `Stopped` holds nothing; `Started` holds the anchor instant captured at
//! `start()` and the tick bookkeeping. Every timestamp other than the
//! anchor is a plain `u64` nanosecond offset from the anchor, so the whole
//! tick/delta/average logic is verified; only the clock readings themselves
//! are trusted (see `clock`).

use crate::clock;
use crate::ring::Buffer;
use crate::ring::ring_view;
use vstd::arithmetic::div_mod::lemma_div_denominator;
use vstd::arithmetic::div_mod::lemma_div_is_ordered;
use vstd::arithmetic::div_mod::lemma_div_multiples_vanish;
use vstd::prelude::*;

verus! {

/// How many per-tick durations the history retains.
pub const HISTORY_CAPACITY: usize = 400;

/// The running state of a started timer.
pub struct InnerTimer {
    /// Monotonic instant captured at `start()`; all offsets count from it.
    pub start: instant::Instant,
    /// Offset of the tick before `curr`, if two or more ticks happened.
    pub last: Option<u64>,
    /// Offset of the most recent tick, if any tick happened.
    pub curr: Option<u64>,
    /// The most recent per-tick durations.
    pub buffer: Buffer<HISTORY_CAPACITY>,
}

/// A frame timer: `Stopped` until `start()`, `Started` from then on.
/// Every read operation yields zero (or an empty view) while `Stopped`.
pub enum Timer {
    Started(InnerTimer),
    Stopped,
}

/// Difference of two nanosecond offsets, saturating at zero.
pub open spec fn nanos_sub(a: u64, b: u64) -> u64 {
    if a >= b {
        (a - b) as u64
    } else {
        0
    }
}

impl InnerTimer {
    /// The reference point the next tick measures from: the most recent
    /// tick, or the anchor (offset zero) if no tick happened yet.
    pub open spec fn tick_reference(self) -> u64 {
        match self.curr {
            Some(c) => c,
            None => 0,
        }
    }

    /// The reference point `delta` measures from: the tick before the most
    /// recent one, or the anchor (offset zero).
    pub open spec fn delta_reference(self) -> u64 {
        match self.last {
            Some(l) => l,
            None => 0,
        }
    }

    pub open spec fn wf(self) -> bool {
        &&& self.buffer.wf()
        &&& self.last is Some ==> self.curr is Some
        &&& self.curr is Some <==> self.buffer.pushed().len() > 0
    }

    /// `delta` read right after a tick reports that tick's duration: a tick
    /// leaving the timer in state `post` with measured duration `r` makes
    /// the delta reference the very interval the tick measured.
    pub proof fn lemma_delta_matches_tick(pre: InnerTimer, post: InnerTimer, now: u64, r: u64)
        requires
            post.last == pre.curr,
            post.curr == Some(now),
            r == nanos_sub(now, pre.tick_reference()),
        ensures
            post.curr matches Some(c) && nanos_sub(c, post.delta_reference()) == r,
    {
    }
}

impl Timer {
    pub open spec fn wf(self) -> bool {
        match self {
            Timer::Started(it) => it.wf(),
            Timer::Stopped => true,
        }
    }

    /// A fresh timer: `Stopped`, with no side effects.
    pub fn new() -> (r: Self)
        ensures
            r == Timer::Stopped,
            r.wf(),
    {
        Timer::Stopped
    }

    /// Unconditionally re-enters `Started` with a fresh anchor, no recorded
    /// ticks and an empty history, whatever the previous state was.
    pub fn start(&mut self)
        ensures
            final(self).wf(),
            *final(self) matches Timer::Started(it) && it.last is None && it.curr is None
                && it.buffer@ == Seq::<u64>::empty() && it.buffer.pushed() == Seq::<u64>::empty(),
    {
        *self = Timer::Started(
            InnerTimer {
                start: clock::monotonic_now(),
                last: None,
                curr: None,
                buffer: Buffer::new(),
            },
        );
    }

    /// Records a tick at offset `now` (nanoseconds from the anchor) and
    /// returns the measured duration: the time since the previous tick, or
    /// since the anchor for the first tick. The old `curr` is promoted into
    /// `last`, `now` becomes `curr`, and the duration joins the history.
    /// While `Stopped` it returns zero and changes nothing.
    pub fn tick_at(&mut self, now: u64) -> (r: u64)
        requires
            old(self).wf(),
        ensures
            final(self).wf(),
            *old(self) matches Timer::Stopped ==> *final(self) == *old(self) && r == 0,
            *old(self) matches Timer::Started(oit) ==> (*final(self) matches Timer::Started(nit)
                && nit.start == oit.start && nit.last == oit.curr && nit.curr == Some(now) && r
                == nanos_sub(now, oit.tick_reference()) && nit.buffer.pushed()
                == oit.buffer.pushed().push(r) && nit.buffer@ == ring_view(
                nit.buffer.pushed(),
                HISTORY_CAPACITY as int,
            )),
    {
        match self {
            Timer::Started(it) => {
                let prev: u64 = match it.curr {
                    Some(c) => c,
                    None => 0,
                };
                it.last = it.curr;
                it.curr = Some(now);
                let dur: u64 = if now >= prev {
                    now - prev
                } else {
                    0
                };
                it.buffer.push(dur);
                dur
            },
            Timer::Stopped => 0,
        }
    }

    /// The time between the two most recent tick boundaries: `curr` minus
    /// `last` (the anchor standing in for a missing `last`). Before the
    /// first tick it reports the live offset since the anchor instead, and
    /// while `Stopped` it returns zero. Pure read.
    pub fn delta(&self) -> (r: u64)
        ensures
            *self matches Timer::Stopped ==> r == 0,
            *self matches Timer::Started(it) ==> (it.curr matches Some(c) ==> r == nanos_sub(
                c,
                it.delta_reference(),
            )),
    {
        match self {
            Timer::Started(it) => {
                let l: u64 = match it.last {
                    Some(x) => x,
                    None => 0,
                };
                let c: u64 = match it.curr {
                    Some(x) => x,
                    None => now_offset(&it.start),
                };
                if c >= l {
                    c - l
                } else {
                    0
                }
            },
            Timer::Stopped => 0,
        }
    }

    /// The live time since the anchor, read fresh from the clock on every
    /// call; zero while `Stopped`. Pure read.
    pub fn elapsed(&self) -> (r: u64)
        ensures
            *self matches Timer::Stopped ==> r == 0,
    {
        match self {
            Timer::Started(it) => now_offset(&it.start),
            Timer::Stopped => 0,
        }
    }

    /// The sum of the recorded durations divided by twice their count: a
    /// deliberately halved arithmetic mean. Zero while `Stopped` or while
    /// the history is still empty (never a division by zero). Pure read.
    pub fn average(&self) -> (r: u64)
        requires
            self.wf(),
        ensures
            *self matches Timer::Stopped ==> r == 0,
            *self matches Timer::Started(it) ==> r == spec_average(it.buffer@),
    {
        match self {
            Timer::Started(it) => average_of(it.buffer.as_slice()),
            Timer::Stopped => 0,
        }
    }

    /// The recorded durations: the `min(ticks, HISTORY_CAPACITY)` most
    /// recent ones, in the ring's storage order; empty while `Stopped`.
    pub fn timings(&self) -> (r: &[u64])
        requires
            self.wf(),
        ensures
            *self matches Timer::Stopped ==> r@ == Seq::<u64>::empty(),
            *self matches Timer::Started(it) ==> r@ == it.buffer@,
    {
        match self {
            Timer::Started(it) => it.buffer.as_slice(),
            Timer::Stopped => &[],
        }
    }

    /// The history never reports more entries than its capacity, nor more
    /// than the ticks recorded since the timer last started.
    pub proof fn lemma_history_bounded(self)
        requires
            self.wf(),
        ensures
            self matches Timer::Started(it) ==> it.buffer@.len() <= HISTORY_CAPACITY as int
                && it.buffer@.len() <= it.buffer.pushed().len(),
    {
        match self {
            Timer::Started(it) => it.buffer.lemma_view_matches_history(),
            Timer::Stopped => (),
        }
    }

    /// Reads the clock and records a tick at the current offset from the
    /// anchor. While `Stopped` it returns zero and changes nothing.
    pub fn tick(&mut self) -> (r: u64)
        requires
            old(self).wf(),
        ensures
            final(self).wf(),
            *old(self) matches Timer::Stopped ==> *final(self) == *old(self) && r == 0,
            *old(self) matches Timer::Started(oit) ==> (*final(self) matches Timer::Started(nit)
                && nit.start == oit.start && nit.last == oit.curr && nit.curr is Some && r
                == nanos_sub(nit.curr.unwrap(), oit.tick_reference()) && nit.buffer.pushed()
                == oit.buffer.pushed().push(r) && nit.buffer@ == ring_view(
                nit.buffer.pushed(),
                HISTORY_CAPACITY as int,
            )),
    {
        let now: u64 = match &*self {
            Timer::Started(it) => now_offset(&it.start),
            Timer::Stopped => 0,
        };
        self.tick_at(now)
    }
}

impl Default for Timer {
    /// Same as `new`: a `Stopped` timer.
    fn default() -> (r: Self)
        ensures
            r == Timer::Stopped,
            r.wf(),
    {
        Timer::new()
    }
}

/// Saturates a nanosecond count to `u64` (over half a millennium;
/// unreachable for a live anchor). This is the library's entire handling
/// of a clock reading, pinned for every possible value of it.
fn saturate_nanos(x: u128) -> (r: u64)
    ensures
        x <= u64::MAX as u128 ==> r as u128 == x,
        x > u64::MAX as u128 ==> r == u64::MAX,
{
    if x > u64::MAX as u128 {
        u64::MAX
    } else {
        x as u64
    }
}

/// The clock's offset from `anchor` in nanoseconds: the raw reading,
/// saturated. The reading itself depends on the moment of the call, so no
/// clause can pin this result; everything after the reading is verified in
/// `saturate_nanos`.
fn now_offset(anchor: &instant::Instant) -> u64 {
    saturate_nanos(clock::nanos_elapsed(anchor))
}

/// The sum of a sequence of duration samples.
pub open spec fn seq_sum(s: Seq<u64>) -> int
    decreases s.len(),
{
    if s.len() == 0 {
        0
    } else {
        seq_sum(s.drop_last()) + s.last()
    }
}

/// The halved mean: the sum of the samples divided by twice their count,
/// rounding down; zero when there are none.
pub open spec fn spec_average(s: Seq<u64>) -> int {
    if s.len() == 0 {
        0
    } else {
        seq_sum(s) / (2 * s.len() as int)
    }
}

/// Each sample fits in `u64`, so the sum is at most the count times
/// `u64::MAX`.
proof fn lemma_seq_sum_bounded(s: Seq<u64>)
    ensures
        0 <= seq_sum(s) <= s.len() * (u64::MAX as int),
    decreases s.len(),
{
    if s.len() != 0 {
        lemma_seq_sum_bounded(s.drop_last());
    }
}

/// Sums the samples and divides by twice their count, rounding down;
/// zero for an empty slice.
fn average_of(s: &[u64]) -> (r: u64)
    ensures
        r == spec_average(s@),
{
    let len: usize = s.len();
    if len == 0 {
        return 0;
    }
    let mut i: usize = 0;
    let mut acc: u128 = 0;
    while i < len
        invariant
            0 <= i <= len,
            len == s@.len(),
            acc == seq_sum(s@.take(i as int)),
        decreases len - i,
    {
        let x: u64 = *vstd::slice::slice_index_get(s, i);
        proof {
            assert(s@.take(i as int + 1).drop_last() =~= s@.take(i as int));
            lemma_seq_sum_bounded(s@.take(i as int + 1));
        }
        acc = acc + (x as u128);
        i = i + 1;
    }
    proof {
        assert(s@.take(len as int) =~= s@);
        lemma_seq_sum_bounded(s@);
        lemma_div_is_ordered(seq_sum(s@), s@.len() as int * (u64::MAX as int), 2 * s@.len() as int);
        lemma_div_denominator(s@.len() as int * (u64::MAX as int), s@.len() as int, 2);
        lemma_div_multiples_vanish(u64::MAX as int, s@.len() as int);
    }
    let d: u128 = 2 * (len as u128);
    let q: u128 = acc / d;
    q as u64
}

/// The sum of `k` copies of `d` is `k * d`.
proof fn lemma_seq_sum_constant(d: u64, k: nat)
    ensures
        seq_sum(Seq::new(k, |i: int| d)) == k * (d as int),
    decreases k,
{
    let s = Seq::new(k, |i: int| d);
    if k != 0 {
        assert(s.drop_last() =~= Seq::new((k - 1) as nat, |i: int| d));
        lemma_seq_sum_constant(d, (k - 1) as nat);
        assert((k - 1) * (d as int) + d == k * (d as int)) by (nonlinear_arith);
    }
}

/// After `k > 0` identical samples of value `d` the reported average is
/// `d / 2`, rounding down: the halving divisor turns the mean of equal
/// samples into half the sample value.
pub proof fn lemma_average_of_identical(d: u64, k: nat)
    requires
        k > 0,
    ensures
        spec_average(Seq::new(k, |i: int| d)) == d as int / 2,
{
    lemma_seq_sum_constant(d, k);
    lemma_div_denominator(k as int * (d as int), k as int, 2);
    lemma_div_multiples_vanish(d as int, k as int);
}

} // verus!
