//! Counters and freelist bookkeeping of the caching device allocator.

use std::collections::HashMap;
use vstd::prelude::*;

verus! {

broadcast use vstd::std_specs::hash::group_hash_axioms;

/// Immutable snapshot of allocator counters at a point in time.
#[derive(Debug, Clone, Copy, PartialEq, Eq)]
pub struct AllocStats {
    pub requests: u64,
    pub hits: u64,
    pub driver_allocs: u64,
    pub recycled: u64,
    pub released: u64,
}

impl AllocStats {
    /// Whether every counter of `self` is at least the matching counter of `earlier`.
    pub open spec fn dominates(self, earlier: AllocStats) -> bool {
        &&& earlier.requests <= self.requests
        &&& earlier.hits <= self.hits
        &&& earlier.driver_allocs <= self.driver_allocs
        &&& earlier.recycled <= self.recycled
        &&& earlier.released <= self.released
    }

    /// Per-interval delta: `self` (later) minus `earlier`.
    pub fn since(&self, earlier: &AllocStats) -> (d: AllocStats)
        requires
            self.dominates(*earlier),
        ensures
            d.requests == self.requests - earlier.requests,
            d.hits == self.hits - earlier.hits,
            d.driver_allocs == self.driver_allocs - earlier.driver_allocs,
            d.recycled == self.recycled - earlier.recycled,
            d.released == self.released - earlier.released,
    {
        AllocStats {
            requests: self.requests - earlier.requests,
            hits: self.hits - earlier.hits,
            driver_allocs: self.driver_allocs - earlier.driver_allocs,
            recycled: self.recycled - earlier.recycled,
            released: self.released - earlier.released,
        }
    }
}


/// Max recycled slices retained per size bin. Bounds resident pool growth for
/// shapes that are allocated in bursts then never reused at that multiplicity.
pub const MAX_PER_BIN: usize = 64;

/// `c + 1`, wrapping at `u64::MAX` like an atomic `fetch_add`.
pub open spec fn bump(c: u64) -> u64 {
    if c == u64::MAX {
        0
    } else {
        (c + 1) as u64
    }
}

/// Freelist bookkeeping of the caching allocator: size bins keyed by exact
/// element length and the allocator's counters. A request is served from
/// the bin of its length when possible (a hit), else it falls through to a
/// fresh driver allocation; a returned slice goes back to its bin unless the
/// bin is full or recycling is off. `S` is the slice type the bins hold.
pub struct BinPool<S> {
    bins: HashMap<usize, Vec<S>>,
    /// Every length that has had a bin since the last clear, once each.
    lens: Ghost<Seq<usize>>,
    /// The number of pooled slices, modulo 2^bits of `usize`.
    held: usize,
    enabled: bool,
    stats: AllocStats,
}

/// `usize::MAX + 1`.
pub open spec fn usize_modulus() -> int {
    usize::MAX as int + 1
}

/// The slices a bin map holds for element length `len` (none without a bin).
pub open spec fn slices_of<S>(m: Map<usize, Vec<S>>, len: usize) -> Seq<S> {
    if m.contains_key(len) {
        m[len]@
    } else {
        seq![]
    }
}

/// Number of slices held for the lengths in `lens`.
pub open spec fn total<S>(m: Map<usize, Vec<S>>, lens: Seq<usize>) -> nat
    decreases lens.len(),
{
    if lens.len() == 0 {
        0
    } else {
        total(m, lens.drop_last()) + slices_of(m, lens.last()).len()
    }
}

/// The total after the bin of `k` alone changed.
proof fn lemma_total_update<S>(m: Map<usize, Vec<S>>, m2: Map<usize, Vec<S>>, lens: Seq<usize>, k: usize)
    requires
        lens.no_duplicates(),
        forall|j: usize| j != k ==> slices_of(m2, j) == slices_of(m, j),
    ensures
        total(m2, lens) + (if lens.contains(k) { slices_of(m, k).len() } else { 0 }) == total(m, lens) + (
        if lens.contains(k) {
            slices_of(m2, k).len()
        } else {
            0
        }),
    decreases lens.len(),
{
    if lens.len() > 0 {
        let l = lens.drop_last();
        assert(l.no_duplicates()) by {
            assert forall|a: int, b: int| 0 <= a < l.len() && 0 <= b < l.len() && a != b implies l[a] != l[b] by {
                assert(l[a] == lens[a] && l[b] == lens[b]);
            }
        }
        lemma_total_update(m, m2, l, k);
        assert(lens.contains(k) <==> (l.contains(k) || lens.last() == k)) by {
            if lens.contains(k) {
                let x = choose|x: int| 0 <= x < lens.len() && lens[x] == k;
                if x < lens.len() - 1 {
                    assert(l[x] == k);
                }
            }
            if l.contains(k) {
                let x = choose|x: int| 0 <= x < l.len() && l[x] == k;
                assert(lens[x] == k);
            }
        }
        if lens.last() == k {
            assert(!l.contains(k)) by {
                if l.contains(k) {
                    let x = choose|x: int| 0 <= x < l.len() && l[x] == k;
                    assert(lens[x] == lens[lens.len() - 1]);
                }
            }
        }
    }
}

/// Adding a length whose bin is empty leaves the total.
proof fn lemma_total_push_empty<S>(m: Map<usize, Vec<S>>, lens: Seq<usize>, k: usize)
    requires
        slices_of(m, k).len() == 0,
    ensures
        total(m, lens.push(k)) == total(m, lens),
{
    assert(lens.push(k).drop_last() =~= lens);
}

/// One more or one fewer, counted modulo `usize::MAX + 1`.
proof fn lemma_count_mod(t: int, h: int)
    requires
        t >= 0,
        0 <= h <= usize::MAX,
        h == t % usize_modulus(),
    ensures
        (t + 1) % usize_modulus() == (if h == usize::MAX { 0 } else { h + 1 }),
        t >= 1 ==> (t - 1) % usize_modulus() == (if h == 0 { usize::MAX as int } else { h - 1 }),
{
    let m = usize_modulus();
    let q = t / m;
    vstd::arithmetic::div_mod::lemma_fundamental_div_mod(t, m);
    vstd::arithmetic::div_mod::lemma_div_pos_is_pos(t, m);
    if h == usize::MAX {
        assert(t + 1 == m * (q + 1) + 0) by (nonlinear_arith)
            requires
                t == m * q + h,
                h + 1 == m,
        ;
        vstd::arithmetic::div_mod::lemma_mod_multiples_vanish(q + 1, 0, m);
    } else {
        vstd::arithmetic::div_mod::lemma_mod_multiples_vanish(q, h + 1, m);
        vstd::arithmetic::div_mod::lemma_small_mod((h + 1) as nat, m as nat);
    }
    if t >= 1 {
        if h == 0 {
            assert(q >= 1) by (nonlinear_arith)
                requires
                    t == m * q,
                    t >= 1,
                    m > 0,
                    q >= 0,
            ;
            assert(t - 1 == m * (q - 1) + (m - 1)) by (nonlinear_arith)
                requires
                    t == m * q + h,
                    h == 0,
            ;
            vstd::arithmetic::div_mod::lemma_mod_multiples_vanish(q - 1, m - 1, m);
            vstd::arithmetic::div_mod::lemma_small_mod((m - 1) as nat, m as nat);
        } else {
            vstd::arithmetic::div_mod::lemma_mod_multiples_vanish(q, h - 1, m);
            vstd::arithmetic::div_mod::lemma_small_mod((h - 1) as nat, m as nat);
        }
    }
}

/// What a request for `len` elements does: it is counted; with recycling
/// on and a nonempty bin for `len`, it is a hit that takes the most recently
/// returned slice of that bin; otherwise it falls through to a counted
/// fresh driver allocation (`None`). Other bins are untouched.
pub open spec fn request_post<S>(before: BinPool<S>, after: BinPool<S>, len: usize, r: Option<S>) -> bool {
    &&& after.recycling() == before.recycling()
    &&& after.counters().requests == bump(before.counters().requests)
    &&& after.counters().recycled == before.counters().recycled
    &&& after.counters().released == before.counters().released
    &&& if before.recycling() && before.bin(len).len() > 0 {
        &&& r == Some(before.bin(len).last())
        &&& after.bin(len) == before.bin(len).drop_last()
        &&& after.pooled_count() + 1 == before.pooled_count()
        &&& after.counters().hits == bump(before.counters().hits)
        &&& after.counters().driver_allocs == before.counters().driver_allocs
    } else {
        &&& r is None
        &&& after.bin(len) == before.bin(len)
        &&& after.pooled_count() == before.pooled_count()
        &&& after.counters().hits == before.counters().hits
        &&& after.counters().driver_allocs == bump(before.counters().driver_allocs)
    }
    &&& forall|other: usize| other != len ==> after.bin(other) == before.bin(other)
}

/// What returning `slice` of `len` elements does: with recycling on and
/// room in the bin for `len` it is pushed there (counted as recycled);
/// otherwise it comes back to be released to the driver (counted as released).
/// Other bins are untouched.
pub open spec fn recycle_post<S>(before: BinPool<S>, after: BinPool<S>, len: usize, slice: S, r: Option<S>) -> bool {
    &&& after.recycling() == before.recycling()
    &&& after.counters().requests == before.counters().requests
    &&& after.counters().hits == before.counters().hits
    &&& after.counters().driver_allocs == before.counters().driver_allocs
    &&& if before.recycling() && before.bin(len).len() < MAX_PER_BIN {
        &&& r is None
        &&& after.bin(len) == before.bin(len).push(slice)
        &&& after.pooled_count() == before.pooled_count() + 1
        &&& after.counters().recycled == bump(before.counters().recycled)
        &&& after.counters().released == before.counters().released
    } else {
        &&& r == Some(slice)
        &&& after.bin(len) == before.bin(len)
        &&& after.pooled_count() == before.pooled_count()
        &&& after.counters().recycled == before.counters().recycled
        &&& after.counters().released == bump(before.counters().released)
    }
    &&& forall|other: usize| other != len ==> after.bin(other) == before.bin(other)
}

impl<S> BinPool<S> {
    /// Every bin's length is listed once, no bin holds more than
    /// [`MAX_PER_BIN`] slices, and `held` counts the pooled slices.
    pub closed spec fn wf(&self) -> bool {
        &&& self.lens@.no_duplicates()
        &&& forall|k: usize| #[trigger] self.bins@.contains_key(k) ==> self.lens@.contains(k)
        &&& forall|k: usize| #[trigger] self.bins@.contains_key(k) ==> self.bins@[k]@.len() <= MAX_PER_BIN
        &&& self.held as int == (total(self.bins@, self.lens@) as int) % usize_modulus()
    }

    /// The slices held for element length `len`, most recently returned last.
    pub closed spec fn bin(&self, len: usize) -> Seq<S> {
        slices_of(self.bins@, len)
    }

    /// Total number of slices held.
    pub closed spec fn pooled_count(&self) -> nat {
        total(self.bins@, self.lens@)
    }

    /// The current counters.
    pub closed spec fn counters(&self) -> AllocStats {
        self.stats
    }

    /// Whether returned slices are recycled.
    pub closed spec fn recycling(&self) -> bool {
        self.enabled
    }

    /// An empty pool with zero counters; `enabled` false makes it a pure
    /// pass-through (every request falls through, every return is released).
    pub fn new(enabled: bool) -> (p: Self)
        ensures
            p.wf(),
            p.recycling() == enabled,
            forall|len: usize| p.bin(len) == Seq::<S>::empty(),
            p.pooled_count() == 0,
            p.counters() == (AllocStats { requests: 0, hits: 0, driver_allocs: 0, recycled: 0, released: 0 }),
    {
        let p = BinPool {
            bins: HashMap::new(),
            lens: Ghost(Seq::empty()),
            held: 0,
            enabled,
            stats: AllocStats { requests: 0, hits: 0, driver_allocs: 0, recycled: 0, released: 0 },
        };
        proof {
            assert forall|len: usize| p.bin(len) == Seq::<S>::empty() by {
                assert(!p.bins@.contains_key(len));
            }
            assert(p.lens@.no_duplicates());
            assert(p.bins@ == Map::<usize, Vec<S>>::empty());
            assert(total(p.bins@, p.lens@) == 0);
            vstd::arithmetic::div_mod::lemma_small_mod(0, usize_modulus() as nat);
        }
        p
    }

    /// Counts a request for `len` elements and serves it from the freelist
    /// when recycling is on and the bin for `len` holds a slice (the most
    /// recently returned one). `None` means the request falls through to a
    /// fresh driver allocation, which is counted.
    pub fn request(&mut self, len: usize) -> (r: Option<S>)
        requires
            old(self).wf(),
        ensures
            final(self).wf(),
            request_post(*old(self), *final(self), len, r),
    {
        self.stats.requests = self.stats.requests.wrapping_add(1);
        if self.enabled {
            let ghost m0 = self.bins@;
            match self.bins.remove(&len) {
                Some(mut v) => {
                    let ghost v0 = v@;
                    assert(m0.contains_key(len) && v0 == m0[len]@);
                    let s = v.pop();
                    self.bins.insert(len, v);
                    let ghost m1 = self.bins@;
                    match s {
                        Some(x) => {
                            proof {
                                assert(m1 == m0.remove(len).insert(len, m1[len]));
                                assert(forall|k: usize| #[trigger] m1.contains_key(k) ==> m0.contains_key(k));
                                assert(m1[len]@.len() < m0[len]@.len());
                                assert forall|k: usize| #[trigger] m1.contains_key(k) implies m1[k]@.len() <= MAX_PER_BIN by {
                                    if k != len {
                                        assert(m1[k] == m0[k]);
                                    }
                                }
                                assert forall|j: usize| j != len implies slices_of(m1, j) == slices_of(m0, j) by {
                                    if m1.contains_key(j) {
                                        assert(m0.contains_key(j));
                                    }
                                }
                                lemma_total_update(m0, m1, self.lens@, len);
                                assert(self.lens@.contains(len));
                                lemma_count_mod(total(m0, self.lens@) as int, self.held as int);
                            }
                            self.held = if self.held == 0 {
                                usize::MAX
                            } else {
                                self.held - 1
                            };
                            self.stats.hits = self.stats.hits.wrapping_add(1);
                            return Some(x);
                        },
                        None => {
                            proof {
                                assert(m1 == m0.remove(len).insert(len, m1[len]));
                                assert(m1[len]@ == m0[len]@);
                                assert(forall|k: usize| #[trigger] m1.contains_key(k) ==> m0.contains_key(k));
                                assert forall|k: usize| #[trigger] m1.contains_key(k) implies m1[k]@.len() <= MAX_PER_BIN by {
                                    if k != len {
                                        assert(m1[k] == m0[k]);
                                    }
                                }
                                assert forall|j: usize| slices_of(m1, j) == slices_of(m0, j) by {
                                    if j != len && m1.contains_key(j) {
                                        assert(m0.contains_key(j));
                                    }
                                }
                                lemma_total_update(m0, m1, self.lens@, len);
                            }
                        },
                    }
                },
                None => {
                    assert(!m0.contains_key(len));
                    assert(self.bins@ =~= m0);
                },
            }
        }
        self.stats.driver_allocs = self.stats.driver_allocs.wrapping_add(1);
        None
    }

    /// Returns a slice of `len` elements to its size bin. It is kept only
    /// when recycling is on and the bin holds fewer than [`MAX_PER_BIN`]
    /// slices; otherwise it comes back (`Some`) to be released to the driver.
    pub fn recycle(&mut self, len: usize, slice: S) -> (r: Option<S>)
        requires
            old(self).wf(),
        ensures
            final(self).wf(),
            recycle_post(*old(self), *final(self), len, slice, r),
    {
        if !self.enabled {
            self.stats.released = self.stats.released.wrapping_add(1);
            return Some(slice);
        }
        let ghost m0 = self.bins@;
        let ghost l0 = self.lens@;
        let mut v = match self.bins.remove(&len) {
            Some(v) => {
                assert(m0.contains_key(len) && v@ == m0[len]@);
                v
            },
            None => {
                assert(!m0.contains_key(len));
                proof {
                    lemma_total_push_empty(m0, l0, len);
                }
                self.lens = Ghost(if l0.contains(len) { l0 } else { l0.push(len) });
                proof {
                    assert(self.lens@.no_duplicates()) by {
                        if !l0.contains(len) {
                            assert forall|a: int, b: int| 0 <= a < self.lens@.len() && 0 <= b < self.lens@.len() && a != b implies self.lens@[a] != self.lens@[b] by {
                                if a < l0.len() && b < l0.len() {
                                    assert(l0[a] != l0[b]);
                                } else if a < l0.len() {
                                    assert(l0.contains(l0[a]));
                                } else if b < l0.len() {
                                    assert(l0.contains(l0[b]));
                                }
                            }
                        }
                    }
                }
                Vec::new()
            },
        };
        let ghost l1 = self.lens@;
        assert(l1.contains(len)) by {
            if l0.contains(len) {
                let x = choose|x: int| 0 <= x < l0.len() && l0[x] == len;
                assert(l1[x] == len);
            } else {
                assert(l1[l1.len() - 1] == len);
            }
        }
        assert(forall|k: usize| m0.contains_key(k) ==> l1.contains(k)) by {
            assert forall|k: usize| m0.contains_key(k) implies l1.contains(k) by {
                assert(l0.contains(k));
                let x = choose|x: int| 0 <= x < l0.len() && l0[x] == k;
                assert(l1[x] == k);
            }
        }
        assert(total(m0, l1) == total(m0, l0));
        if v.len() < MAX_PER_BIN {
            let ghost v0 = v@;
            assert(v0 == slices_of(m0, len));
            v.push(slice);
            self.bins.insert(len, v);
            let ghost m1 = self.bins@;
            proof {
                assert forall|j: usize| j != len implies slices_of(m1, j) == slices_of(m0, j) by {
                    if m1.contains_key(j) {
                        assert(m0.contains_key(j));
                    }
                }
                assert(slices_of(m1, len) == v0.push(slice));
                lemma_total_update(m0, m1, l1, len);
                lemma_count_mod(total(m0, l1) as int, self.held as int);
            }
            self.held = if self.held == usize::MAX {
                0
            } else {
                self.held + 1
            };
            self.stats.recycled = self.stats.recycled.wrapping_add(1);
            None
        } else {
            let ghost v1 = v@;
            self.bins.insert(len, v);
            proof {
                let m1 = self.bins@;
                assert(m0.contains_key(len)) by {
                    if !m0.contains_key(len) {
                        assert(v1.len() == 0);
                    }
                }
                assert(m1[len]@ == m0[len]@);
                assert(forall|k: usize| #[trigger] m1.contains_key(k) ==> m0.contains_key(k));
                assert forall|k: usize| #[trigger] m1.contains_key(k) implies m1[k]@.len() <= MAX_PER_BIN by {
                    if k != len {
                        assert(m1[k] == m0[k]);
                    }
                }
                assert forall|j: usize| slices_of(m1, j) == slices_of(m0, j) by {
                    if j != len && m1.contains_key(j) {
                        assert(m0.contains_key(j));
                    }
                }
                lemma_total_update(m0, m1, l1, len);
            }
            self.stats.released = self.stats.released.wrapping_add(1);
            Some(slice)
        }
    }

    /// Snapshot of the counters.
    pub fn stats(&self) -> (s: AllocStats)
        ensures
            s == self.counters(),
    {
        self.stats
    }

    /// Drops every pooled slice (back to the driver); counters are kept.
    pub fn clear(&mut self)
        requires
            old(self).wf(),
        ensures
            final(self).wf(),
            final(self).recycling() == old(self).recycling(),
            final(self).counters() == old(self).counters(),
            forall|len: usize| final(self).bin(len) == Seq::<S>::empty(),
            final(self).pooled_count() == 0,
    {
        self.bins.clear();
        self.lens = Ghost(Seq::empty());
        self.held = 0;
        assert(self.lens@.no_duplicates());
        assert forall|len: usize| self.bin(len) == Seq::<S>::empty() by {
            assert(!self.bins@.contains_key(len));
        }
    }

    /// Decides what follows a failed fresh driver allocation: a recycling
    /// pool drops every pooled slice (back to the driver) and the allocation
    /// is retried once; a pass-through pool reports the failure unchanged.
    pub fn retry_after_failure(&mut self) -> (retry: bool)
        requires
            old(self).wf(),
        ensures
            final(self).wf(),
            retry == old(self).recycling(),
            final(self).recycling() == old(self).recycling(),
            final(self).counters() == old(self).counters(),
            retry ==> final(self).pooled_count() == 0 && forall|len: usize| final(self).bin(len) == Seq::<S>::empty(),
            !retry ==> final(self).pooled_count() == old(self).pooled_count() && forall|len: usize|
                final(self).bin(len) == old(self).bin(len),
    {
        if self.enabled {
            self.clear();
            true
        } else {
            false
        }
    }

    /// Total slices currently held in the freelist (all bins), wrapping at
    /// `usize::MAX + 1` like a sum of `usize`s.
    pub fn pooled(&self) -> (n: usize)
        requires
            self.wf(),
        ensures
            n as int == (self.pooled_count() as int) % usize_modulus(),
    {
        self.held
    }

    /// Whether returned slices are recycled.
    pub fn is_enabled(&self) -> (b: bool)
        ensures
            b == self.recycling(),
    {
        self.enabled
    }
}

// ---------------------------------------------------------------------------
// Laws of the freelist

/// `requests` equals `hits + driver_allocs` modulo 2^64.
pub open spec fn requests_balanced(s: AllocStats) -> bool {
    s.requests as int == (s.hits as int + s.driver_allocs as int) % 0x1_0000_0000_0000_0000
}

proof fn lemma_bump_mod(c: u64)
    ensures
        bump(c) as int == (c as int + 1) % 0x1_0000_0000_0000_0000,
{
}

/// Every request is counted exactly once, either as a freelist hit or as a
/// fresh driver allocation: a request keeps `requests == hits +
/// driver_allocs` (modulo 2^64).
pub proof fn law_request_balance<S>(before: BinPool<S>, after: BinPool<S>, len: usize, r: Option<S>)
    requires
        request_post(before, after, len, r),
        requests_balanced(before.counters()),
    ensures
        requests_balanced(after.counters()),
{
    let m: int = 0x1_0000_0000_0000_0000;
    let b = before.counters();
    let a = after.counters();
    lemma_bump_mod(b.requests);
    lemma_bump_mod(b.hits);
    lemma_bump_mod(b.driver_allocs);
    vstd::arithmetic::div_mod::lemma_add_mod_noop(b.hits as int + b.driver_allocs as int, 1, m);
    vstd::arithmetic::div_mod::lemma_add_mod_noop(b.hits as int, b.driver_allocs as int + 1, m);
    vstd::arithmetic::div_mod::lemma_add_mod_noop(b.hits as int + 1, b.driver_allocs as int, m);
    vstd::arithmetic::div_mod::lemma_mod_twice(b.hits as int + b.driver_allocs as int + 1, m);
    vstd::arithmetic::div_mod::lemma_small_mod(b.hits as nat, m as nat);
    vstd::arithmetic::div_mod::lemma_small_mod(b.driver_allocs as nat, m as nat);
    vstd::arithmetic::div_mod::lemma_small_mod(1, m as nat);
}

/// Returning a slice never touches the request counters.
pub proof fn law_recycle_balance<S>(before: BinPool<S>, after: BinPool<S>, len: usize, slice: S, r: Option<S>)
    requires
        recycle_post(before, after, len, slice, r),
        requests_balanced(before.counters()),
    ensures
        requests_balanced(after.counters()),
{
}

/// A slice returned to a recycling pool with room in its bin is what the
/// next request of the same length gets back, and the pool is then as it
/// was before the return (only the counters moved).
pub proof fn law_returned_slice_is_reused<S>(
    p0: BinPool<S>,
    p1: BinPool<S>,
    p2: BinPool<S>,
    len: usize,
    slice: S,
    r1: Option<S>,
    r2: Option<S>,
)
    requires
        recycle_post(p0, p1, len, slice, r1),
        request_post(p1, p2, len, r2),
        p0.recycling(),
        p0.bin(len).len() < MAX_PER_BIN,
    ensures
        r1 is None,
        r2 == Some(slice),
        forall|l: usize| p2.bin(l) == p0.bin(l),
        p2.pooled_count() == p0.pooled_count(),
        p2.counters().hits == bump(p0.counters().hits),
        p2.counters().driver_allocs == p0.counters().driver_allocs,
{
    assert(p0.bin(len).push(slice).drop_last() =~= p0.bin(len));
}

/// A pass-through pool never pools: requests fall through to the driver and
/// returned slices are released.
pub proof fn law_passthrough_pools_nothing<S>(
    p0: BinPool<S>,
    p1: BinPool<S>,
    p2: BinPool<S>,
    len: usize,
    slice: S,
    r1: Option<S>,
    r2: Option<S>,
)
    requires
        !p0.recycling(),
        recycle_post(p0, p1, len, slice, r1),
        request_post(p1, p2, len, r2),
    ensures
        r1 == Some(slice),
        r2 is None,
        p2.pooled_count() == p0.pooled_count(),
        p2.counters().released == bump(p0.counters().released),
        p2.counters().driver_allocs == bump(p0.counters().driver_allocs),
{
}

/// Whether no counter has reached `u64::MAX`, where it would wrap.
pub open spec fn below_wrap(s: AllocStats) -> bool {
    &&& s.requests < u64::MAX
    &&& s.hits < u64::MAX
    &&& s.driver_allocs < u64::MAX
    &&& s.recycled < u64::MAX
    &&& s.released < u64::MAX
}

/// Counters only grow: short of wrapping, a request never lowers a counter,
/// so a later snapshot dominates an earlier one and `since` applies.
pub proof fn law_request_counters_grow<S>(before: BinPool<S>, after: BinPool<S>, len: usize, r: Option<S>)
    requires
        request_post(before, after, len, r),
        below_wrap(before.counters()),
    ensures
        after.counters().dominates(before.counters()),
        after.counters().requests == before.counters().requests + 1,
{
}

/// Counters only grow: short of wrapping, returning a slice never lowers a
/// counter, and it counts the slice as recycled or released.
pub proof fn law_recycle_counters_grow<S>(before: BinPool<S>, after: BinPool<S>, len: usize, slice: S, r: Option<S>)
    requires
        recycle_post(before, after, len, slice, r),
        below_wrap(before.counters()),
    ensures
        after.counters().dominates(before.counters()),
        after.counters().recycled + after.counters().released == before.counters().recycled
            + before.counters().released + 1,
{
}

/// No bin ever holds more than [`MAX_PER_BIN`] slices.
pub proof fn law_bins_are_capped<S>(p: BinPool<S>)
    requires
        p.wf(),
    ensures
        forall|len: usize| #[trigger] p.bin(len).len() <= MAX_PER_BIN,
{
}

} // verus!
