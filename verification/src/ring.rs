//! A fixed-capacity circular buffer of duration samples, counted in
//! nanoseconds.
//!
//! The buffer keeps the `N` most recently pushed samples. A ghost record of
//! every push ties the stored slots to the push history: slot `i` always
//! holds the latest push whose index is congruent to `i` modulo `N`.

use vstd::arithmetic::div_mod::lemma_fundamental_div_mod;
use vstd::arithmetic::div_mod::lemma_fundamental_div_mod_converse_mod;
use vstd::prelude::*;

verus! {

/// Index into the push history of the sample that slot `i` of a ring of
/// capacity `n` holds after `k` pushes: the latest push written to slot `i`.
pub open spec fn stored_push_index(k: int, i: int, n: int) -> int {
    if i < k % n {
        k - k % n + i
    } else {
        k - k % n - n + i
    }
}

/// What a ring of capacity `n` exposes after the pushes in `pushed`: the
/// last `min(|pushed|, n)` samples, in storage order (chronological until
/// the ring first wraps, rotated afterwards).
pub open spec fn ring_view(pushed: Seq<u64>, n: int) -> Seq<u64> {
    let len = if pushed.len() < n { pushed.len() as int } else { n };
    Seq::new(len as nat, |i: int| pushed[stored_push_index(pushed.len() as int, i, n)])
}

/// Every one of the most recent `min(|pushed|, n)` pushes is present in the
/// ring's view, at the slot its push index selects: nothing recent is lost,
/// only samples older than the capacity are overwritten.
pub proof fn lemma_ring_view_covers_recent(pushed: Seq<u64>, n: int, j: int)
    requires
        n > 0,
        0 <= j < pushed.len(),
        pushed.len() - n <= j,
    ensures
        ring_view(pushed, n)[j % n] == pushed[j],
{
    let k = pushed.len() as int;
    let i = j % n;
    let qj = j / n;
    let qk = k / n;
    let r = k % n;
    lemma_fundamental_div_mod(j, n);
    lemma_fundamental_div_mod(k, n);
    if k <= n {
        vstd::arithmetic::div_mod::lemma_small_mod(j as nat, n as nat);
        if k < n {
            vstd::arithmetic::div_mod::lemma_small_mod(k as nat, n as nat);
        } else {
            vstd::arithmetic::div_mod::lemma_mod_self_0(n);
        }
    } else {
        if i < r {
            assert(qj == qk) by (nonlinear_arith)
                requires
                    n > 0,
                    j == n * qj + i,
                    k == n * qk + r,
                    0 <= i < n,
                    0 <= r < n,
                    i < r,
                    k - n <= j < k,
            ;
        } else {
            assert(qj == qk - 1 && n * qj == n * qk - n) by (nonlinear_arith)
                requires
                    n > 0,
                    j == n * qj + i,
                    k == n * qk + r,
                    0 <= i < n,
                    0 <= r < n,
                    i >= r,
                    k - n <= j < k,
            ;
        }
    }
    assert(stored_push_index(k, i, n) == j);
    assert(ring_view(pushed, n)[i] == pushed[stored_push_index(k, i, n)]);
}

/// A bounded, allocation-stable store of the most recent `N` samples.
///
/// All `N` slots are allocated once at construction and overwritten in
/// place, so pushing never allocates. Only the first `size` slots are valid;
/// `as_slice` exposes exactly those.
pub struct Buffer<const N: usize> {
    arr: Vec<u64>,
    size: usize,
    head: usize,
    pushed: Ghost<Seq<u64>>,
}

impl<const N: usize> View for Buffer<N> {
    type V = Seq<u64>;

    closed spec fn view(&self) -> Seq<u64> {
        self.arr@.take(self.size as int)
    }
}

impl<const N: usize> Buffer<N> {
    /// Every sample ever pushed, oldest first (ghost bookkeeping only).
    pub closed spec fn pushed(&self) -> Seq<u64> {
        self.pushed@
    }

    /// The store is consistent with its push history: the valid-entry count
    /// saturates at `N`, the cursor walks the slots cyclically, and each
    /// valid slot holds the latest sample written to it.
    pub closed spec fn wf(&self) -> bool {
        &&& N > 0
        &&& self.arr@.len() == N as int
        &&& self.size as int == if self.pushed@.len() < N as nat {
            self.pushed@.len() as int
        } else {
            N as int
        }
        &&& self.head as int == self.pushed@.len() as int % (N as int)
        &&& forall|i: int|
            0 <= i < self.size as int ==> self.arr@[i] == self.pushed@[stored_push_index(
                self.pushed@.len() as int,
                i,
                N as int,
            )]
    }

    /// An empty history: `N` zeroed slots, no valid entries.
    pub fn new() -> (r: Self)
        requires
            N > 0,
        ensures
            r.wf(),
            r@ == Seq::<u64>::empty(),
            r.pushed() == Seq::<u64>::empty(),
    {
        let r = Buffer { arr: vec![0u64; N], size: 0, head: 0, pushed: Ghost(Seq::empty()) };
        proof {
            assert(r@ =~= Seq::<u64>::empty());
        }
        r
    }

    /// Records one sample in the slot under the cursor, advances the cursor
    /// cyclically, and grows the valid-entry count up to the ceiling `N`.
    /// Once `N` samples are held, the oldest is overwritten.
    pub fn push(&mut self, item: u64)
        requires
            old(self).wf(),
        ensures
            final(self).wf(),
            final(self).pushed() == old(self).pushed().push(item),
            final(self)@ == ring_view(final(self).pushed(), N as int),
            final(self)@.len() == if old(self)@.len() < N as int {
                old(self)@.len() as int + 1
            } else {
                N as int
            },
    {
        let ghost n = N as int;
        let ghost k = self.pushed@.len() as int;
        let ghost r = k % n;
        self.arr[self.head] = item;
        proof {
            self.pushed@ = self.pushed@.push(item);
        }
        if self.size < N {
            self.size = self.size + 1;
        }
        self.head = if self.head + 1 == N {
            0
        } else {
            self.head + 1
        };
        proof {
            lemma_fundamental_div_mod(k, n);
            if r + 1 == n {
                assert(k + 1 == (k / n + 1) * n + 0) by (nonlinear_arith)
                    requires
                        k == n * (k / n) + r,
                        r + 1 == n,
                ;
                lemma_fundamental_div_mod_converse_mod(k + 1, n, k / n + 1, 0);
            } else {
                assert(k + 1 == (k / n) * n + (r + 1)) by (nonlinear_arith)
                    requires
                        k == n * (k / n) + r,
                ;
                lemma_fundamental_div_mod_converse_mod(k + 1, n, k / n, r + 1);
            }
            assert((k + 1) % n == if r + 1 == n { 0int } else { r + 1 });
            if k < n {
                vstd::arithmetic::div_mod::lemma_small_mod(k as nat, n as nat);
            }
            assert forall|i: int| 0 <= i < self.size as int implies self.arr@[i]
                == self.pushed@[stored_push_index(k + 1, i, n)] by {
                if i != r {
                    assert(0 <= i < old(self).size as int);
                }
            }
            self.lemma_view_matches_history();
        }
    }

    /// The valid entries: exactly the `min(pushes, N)` most recent samples.
    pub fn as_slice(&self) -> (r: &[u64])
        requires
            self.wf(),
        ensures
            r@ == self@,
    {
        let r = vstd::slice::slice_subrange(self.arr.as_slice(), 0, self.size);
        proof {
            assert(r@ =~= self@);
        }
        r
    }

    /// A well-formed buffer shows exactly the most recent samples: its view
    /// is the ring of its push history, so its length is the push count
    /// saturated at `N` — it never exceeds the capacity, nor the number of
    /// samples ever pushed.
    pub proof fn lemma_view_matches_history(&self)
        requires
            self.wf(),
        ensures
            self@ == ring_view(self.pushed(), N as int),
            self@.len() == if self.pushed().len() < N as nat {
                self.pushed().len() as int
            } else {
                N as int
            },
            self@.len() <= N,
            self@.len() <= self.pushed().len(),
    {
        assert(self@ =~= ring_view(self.pushed(), N as int));
    }
}

} // verus!
