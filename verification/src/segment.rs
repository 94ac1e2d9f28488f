//! Segment topologies: the CSR layout of an edge-to-segment assignment and
//! the size checks and launch shape of a segment reduction.

use vstd::prelude::*;

verus! {

/// Why a segment topology or a segment launch is refused.
#[derive(Clone, Copy, Debug, PartialEq, Eq, Structural)]
pub enum SegmentError {
    /// The ids name a segment past `groups`, or the CSR would not fit in `i32`.
    InvalidTopology,
    /// A buffer has the wrong length, or the sizes do not fit in `i32`.
    InvalidBuffer,
}

/// The message of each SegmentError.
pub open spec fn segment_error_message(x: SegmentError) -> Seq<char> {
    match x {
        SegmentError::InvalidTopology => "invalid or oversized segment topology"@,
        SegmentError::InvalidBuffer => "invalid segment buffer or size"@,
    }
}

impl SegmentError {
    pub fn message(&self) -> (m: &'static str)
        ensures
            m@ == segment_error_message(*self),
    {
        match self {
            SegmentError::InvalidTopology => "invalid or oversized segment topology",
            SegmentError::InvalidBuffer => "invalid segment buffer or size",
        }
    }
}

/// Number of `j < k` with `ids[j] < s`.
pub open spec fn count_below(ids: Seq<usize>, s: int, k: int) -> int
    decreases k,
{
    if k <= 0 {
        0
    } else {
        count_below(ids, s, k - 1) + if ids[k - 1] < s { 1int } else { 0int }
    }
}

/// Number of `j < k` with `ids[j] == s`.
pub open spec fn count_equal(ids: Seq<usize>, s: int, k: int) -> int
    decreases k,
{
    if k <= 0 {
        0
    } else {
        count_equal(ids, s, k - 1) + if ids[k - 1] == s { 1int } else { 0int }
    }
}

/// Position of edge `e` when the edges are ordered by segment, ties kept in
/// edge order.
pub open spec fn edge_rank(ids: Seq<usize>, e: int) -> int {
    count_below(ids, ids[e] as int, ids.len() as int) + count_equal(ids, ids[e] as int, e)
}

/// Whether `ids` assign every edge to one of `groups` segments and the CSR
/// (`groups + 1` offsets, then one entry per edge) fits in `i32`.
pub open spec fn topology_ok(ids: Seq<usize>, groups: int) -> bool {
    &&& groups + 1 + ids.len() <= i32::MAX
    &&& forall|j: int| 0 <= j < ids.len() ==> (#[trigger] ids[j]) < groups
}

proof fn lemma_count_split(ids: Seq<usize>, s: int, k: int)
    requires
        0 <= k <= ids.len(),
    ensures
        count_below(ids, s + 1, k) == count_below(ids, s, k) + count_equal(ids, s, k),
    decreases k,
{
    if k > 0 {
        lemma_count_split(ids, s, k - 1);
    }
}

proof fn lemma_count_ranges(ids: Seq<usize>, s: int, k: int)
    requires
        0 <= k <= ids.len(),
    ensures
        0 <= count_below(ids, s, k) <= k,
        0 <= count_equal(ids, s, k) <= k,
    decreases k,
{
    if k > 0 {
        lemma_count_ranges(ids, s, k - 1);
    }
}

proof fn lemma_count_below_monotone(ids: Seq<usize>, s: int, t: int, k: int)
    requires
        0 <= k <= ids.len(),
        s <= t,
    ensures
        count_below(ids, s, k) <= count_below(ids, t, k),
    decreases k,
{
    if k > 0 {
        lemma_count_below_monotone(ids, s, t, k - 1);
    }
}

proof fn lemma_count_equal_grows(ids: Seq<usize>, s: int, a: int, b: int)
    requires
        0 <= a <= b <= ids.len(),
    ensures
        count_equal(ids, s, a) <= count_equal(ids, s, b),
    decreases b - a,
{
    if a < b {
        lemma_count_equal_grows(ids, s, a, b - 1);
    }
}

proof fn lemma_none_below_zero(ids: Seq<usize>, k: int)
    requires
        0 <= k <= ids.len(),
    ensures
        count_below(ids, 0, k) == 0,
    decreases k,
{
    if k > 0 {
        lemma_none_below_zero(ids, k - 1);
    }
}

proof fn lemma_all_below(ids: Seq<usize>, g: int, k: int)
    requires
        0 <= k <= ids.len(),
        forall|j: int| 0 <= j < ids.len() ==> (#[trigger] ids[j]) < g,
    ensures
        count_below(ids, g, k) == k,
    decreases k,
{
    if k > 0 {
        lemma_all_below(ids, g, k - 1);
    }
}

/// Edge ranks lie in `[0, edges)` and differ between edges.
proof fn lemma_rank(ids: Seq<usize>, g: int, e: int, f: int)
    requires
        forall|j: int| 0 <= j < ids.len() ==> (#[trigger] ids[j]) < g,
        0 <= f < e < ids.len(),
    ensures
        0 <= edge_rank(ids, e) < ids.len(),
        0 <= edge_rank(ids, f) < ids.len(),
        edge_rank(ids, e) != edge_rank(ids, f),
{
    let n = ids.len() as int;
    let se = ids[e] as int;
    let sf = ids[f] as int;
    lemma_rank_bound(ids, g, e);
    lemma_rank_bound(ids, g, f);
    if se == sf {
        lemma_count_equal_grows(ids, se, f + 1, e);
    } else if sf < se {
        lemma_count_split(ids, sf, n);
        lemma_count_below_monotone(ids, sf + 1, se, n);
        lemma_count_equal_grows(ids, sf, f + 1, n);
        lemma_count_ranges(ids, se, e);
    } else {
        lemma_count_split(ids, se, n);
        lemma_count_below_monotone(ids, se + 1, sf, n);
        lemma_count_equal_grows(ids, se, e + 1, n);
        lemma_count_ranges(ids, sf, f);
    }
}

proof fn lemma_rank_bound(ids: Seq<usize>, g: int, e: int)
    requires
        forall|j: int| 0 <= j < ids.len() ==> (#[trigger] ids[j]) < g,
        0 <= e < ids.len(),
    ensures
        0 <= edge_rank(ids, e) < ids.len(),
{
    let n = ids.len() as int;
    let s = ids[e] as int;
    lemma_count_split(ids, s, n);
    lemma_count_below_monotone(ids, s + 1, g, n);
    lemma_all_below(ids, g, n);
    lemma_count_equal_grows(ids, s, e + 1, n);
    lemma_count_ranges(ids, s, e);
    lemma_count_ranges(ids, s, n);
}

/// The CSR layout of a segment topology: `groups + 1` offsets (offset `s`
/// is the number of edges in segments before `s`, so offset `groups` is the
/// edge count), then the edge indices ordered by segment, ties in edge order.
pub fn build_csr(ids: &Vec<usize>, groups: usize) -> (r: Result<Vec<i64>, SegmentError>)
    ensures
        match r {
            Err(e) => e == SegmentError::InvalidTopology && !topology_ok(ids@, groups as int),
            Ok(csr) => {
                &&& topology_ok(ids@, groups as int)
                &&& csr@.len() == groups + 1 + ids@.len()
                &&& forall|s: int| 0 <= s <= groups ==> csr@[s] == count_below(ids@, s, ids@.len() as int)
                &&& forall|e: int| 0 <= e < ids@.len() ==> csr@[groups + 1 + edge_rank(ids@, e)] == e
            },
        },
{
    let n = ids.len();
    let len = match groups.checked_add(1) {
        Some(g1) => match g1.checked_add(n) {
            Some(l) => l,
            None => {
                return Err(SegmentError::InvalidTopology);
            },
        },
        None => {
            return Err(SegmentError::InvalidTopology);
        },
    };
    if len > i32::MAX as usize {
        return Err(SegmentError::InvalidTopology);
    }
    let mut j: usize = 0;
    while j < n
        invariant
            j <= n == ids@.len(),
            forall|q: int| 0 <= q < j ==> (#[trigger] ids@[q]) < groups,
        decreases n - j,
    {
        if ids[j] >= groups {
            assert(!topology_ok(ids@, groups as int)) by {
                assert(ids@[j as int] >= groups);
            }
            return Err(SegmentError::InvalidTopology);
        }
        j = j + 1;
    }
    let ghost g = groups as int;
    let ghost idv = ids@;
    // Zeroed CSR.
    let mut csr: Vec<i64> = Vec::new();
    let mut k: usize = 0;
    while k < len
        invariant
            k <= len,
            csr@.len() == k,
            forall|q: int| 0 <= q < k ==> csr@[q] == 0,
        decreases len - k,
    {
        csr.push(0);
        k = k + 1;
    }
    // Per-segment counts at offset s + 1.
    let mut e: usize = 0;
    while e < n
        invariant
            n == ids@.len(),
            idv == ids@,
            len == groups + 1 + n,
            len <= i32::MAX,
            topology_ok(idv, g),
            g == groups,
            e <= n,
            csr@.len() == len,
            csr@[0] == 0,
            forall|s: int| 0 <= s < groups ==> csr@[s + 1] == count_equal(idv, s, e as int),
            forall|q: int| groups < q < len ==> csr@[q] == 0,
        decreases n - e,
    {
        let s = ids[e];
        proof {
            lemma_count_ranges(idv, s as int, e as int);
        }
        let ghost before = csr@;
        let ghost e1 = e + 1;
        csr.set(s + 1, csr[s + 1] + 1);
        assert forall|t: int| 0 <= t < groups implies csr@[t + 1] == #[trigger] count_equal(idv, t, e1) by {
            assert(count_equal(idv, t, e1) == count_equal(idv, t, e as int) + if idv[e as int] == t { 1int } else { 0int });
            assert(before[t + 1] == count_equal(idv, t, e as int));
        }
        e = e + 1;
    }
    proof {
        lemma_none_below_zero(idv, n as int);
        assert forall|t: int| 0 < t <= groups implies csr@[t] == count_equal(idv, t - 1, n as int) by {
            assert(csr@[(t - 1) + 1] == count_equal(idv, t - 1, n as int));
        }
    }
    // Exclusive prefix sums.
    let mut s: usize = 0;
    while s < groups
        invariant
            n == ids@.len(),
            idv == ids@,
            len == groups + 1 + n,
            len <= i32::MAX,
            topology_ok(idv, g),
            g == groups,
            s <= groups,
            csr@.len() == len,
            forall|t: int| 0 <= t <= s ==> csr@[t] == count_below(idv, t, n as int),
            forall|t: int| s < t <= groups ==> csr@[t] == count_equal(idv, t - 1, n as int),
            forall|q: int| groups < q < len ==> csr@[q] == 0,
        decreases groups - s,
    {
        proof {
            lemma_count_split(idv, s as int, n as int);
            lemma_count_ranges(idv, s as int + 1, n as int);
        }
        csr.set(s + 1, csr[s + 1] + csr[s]);
        s = s + 1;
    }
    proof {
        lemma_all_below(idv, g, n as int);
    }
    // Fill the edge slots, segment by segment.
    let mut next: Vec<i64> = Vec::new();
    let mut t: usize = 0;
    while t < groups
        invariant
            t <= groups,
            csr@.len() == len,
            len == groups + 1 + n,
            next@.len() == t,
            forall|q: int| 0 <= q < t ==> next@[q] == csr@[q],
        decreases groups - t,
    {
        next.push(csr[t]);
        t = t + 1;
    }
    let ghost offsets = csr@.subrange(0, g + 1);
    let mut e: usize = 0;
    while e < n
        invariant
            n == ids@.len(),
            idv == ids@,
            len == groups + 1 + n,
            len <= i32::MAX,
            topology_ok(idv, g),
            g == groups,
            e <= n,
            csr@.len() == len,
            next@.len() == groups,
            offsets.len() == g + 1,
            forall|q: int| 0 <= q <= g ==> csr@[q] == offsets[q],
            forall|q: int| 0 <= q <= g ==> offsets[q] == count_below(idv, q, n as int),
            forall|q: int| 0 <= q < g ==> next@[q] == count_below(idv, q, n as int) + count_equal(idv, q, e as int),
            forall|f: int| 0 <= f < e ==> csr@[g + 1 + edge_rank(idv, f)] == f,
        decreases n - e,
    {
        let s = ids[e];
        proof {
            lemma_rank_bound(idv, g, e as int);
            assert forall|f: int| 0 <= f < e implies edge_rank(idv, f) != edge_rank(idv, e as int) by {
                lemma_rank(idv, g, e as int, f);
            }
        }
        let p = next[s];
        assert(p == edge_rank(idv, e as int));
        let pos = groups + 1 + p as usize;
        let ghost before = csr@;
        let ghost next_before = next@;
        csr.set(pos, e as i64);
        next.set(s, p + 1);
        assert forall|f: int| 0 <= f < e + 1 implies csr@[g + 1 + #[trigger] edge_rank(idv, f)] == f by {
            if f < e {
                lemma_rank(idv, g, e as int, f);
                assert(before[g + 1 + edge_rank(idv, f)] == f);
            } else {
                assert(f == e);
                assert(pos == g + 1 + edge_rank(idv, e as int));
            }
        }
        let ghost e1 = e + 1;
        assert forall|q: int| 0 <= q < g implies next@[q] == count_below(idv, q, n as int) + count_equal(idv, q, e1) by {
            assert(count_equal(idv, q, e1) == count_equal(idv, q, e as int) + if idv[e as int] == q { 1int } else { 0int });
            assert(next_before[q] == count_below(idv, q, n as int) + count_equal(idv, q, e as int));
        }
        e = e + 1;
    }
    assert(topology_ok(ids@, groups as int));
    assert(csr@.len() == groups + 1 + ids@.len());
    assert forall|q: int| 0 <= q <= groups implies csr@[q] == count_below(ids@, q, ids@.len() as int) by {
        assert(csr@[q] == offsets[q]);
    }
    assert(forall|f: int| 0 <= f < ids@.len() ==> csr@[groups + 1 + edge_rank(ids@, f)] == f);
    Ok(csr)
}

/// CSR law: the offsets start at 0, never decrease and end at the edge count,
/// and every edge of segment `s` sits in the edge slots between offset `s`
/// and offset `s + 1`, so each segment's edges form one contiguous run.
pub proof fn law_csr_segments_are_contiguous(ids: Seq<usize>, groups: int, e: int, s: int, t: int)
    requires
        topology_ok(ids, groups),
        0 <= e < ids.len(),
        0 <= s <= t <= groups,
    ensures
        count_below(ids, 0, ids.len() as int) == 0,
        count_below(ids, groups, ids.len() as int) == ids.len(),
        count_below(ids, s, ids.len() as int) <= count_below(ids, t, ids.len() as int),
        count_below(ids, ids[e] as int, ids.len() as int) <= edge_rank(ids, e),
        edge_rank(ids, e) < count_below(ids, ids[e] + 1, ids.len() as int),
{
    let n = ids.len() as int;
    let se = ids[e] as int;
    lemma_none_below_zero(ids, n);
    lemma_all_below(ids, groups, n);
    lemma_count_below_monotone(ids, s, t, n);
    lemma_count_ranges(ids, se, e);
    lemma_count_split(ids, se, n);
    lemma_count_equal_grows(ids, se, e + 1, n);
}

/// The segment operations over edge features of width `width`.
#[derive(Clone, Copy, Debug, PartialEq, Eq, Structural)]
pub enum SegmentOp {
    /// Per-segment sums of the edge features.
    Sum,
    /// Adjoint of `Sum`: each edge takes its segment's gradient.
    SumBackward,
    /// Softmax over the edges of each segment.
    Softmax,
    /// Adjoint of `Softmax`, given the saved forward output.
    SoftmaxBackward,
}

/// How one segment operation runs.
#[derive(Clone, Copy, Debug, PartialEq, Eq, Structural)]
pub struct SegmentLaunch {
    /// Kernel mode: 0 sum, 1 sum adjoint, 2 softmax, 3 softmax adjoint.
    pub mode: i32,
    /// Elements of an edge-major buffer: `edges * width`.
    pub edge_elems: usize,
    /// Elements of a segment-major buffer: `groups * width`.
    pub group_elems: usize,
    /// Elements of the zero-filled output.
    pub output: usize,
    /// Whether the kernel launches, one thread per segment element.
    pub launch: bool,
    /// The segment count as a kernel argument.
    pub groups_arg: i32,
    /// The feature width as a kernel argument.
    pub width_arg: i32,
}

/// Kernel mode, input length and output length of an operation.
pub open spec fn segment_shape(kind: SegmentOp, edge_elems: int, group_elems: int) -> (i32, int, int) {
    match kind {
        SegmentOp::Sum => (0i32, edge_elems, group_elems),
        SegmentOp::SumBackward => (1i32, group_elems, edge_elems),
        SegmentOp::Softmax => (2i32, edge_elems, edge_elems),
        SegmentOp::SoftmaxBackward => (3i32, edge_elems, edge_elems),
    }
}

/// The decision on a segment operation over a topology of `edges` edges and
/// `groups` segments and an input of `x_len` elements.
pub open spec fn segment_check(kind: SegmentOp, edges: usize, groups: usize, width: usize, x_len: usize) -> Result<SegmentLaunch, SegmentError> {
    let ew = edges * width;
    let gw = groups * width;
    if ew > i32::MAX || gw > i32::MAX {
        Err(SegmentError::InvalidBuffer)
    } else {
        let (mode, input, output) = segment_shape(kind, ew, gw);
        if x_len != input {
            Err(SegmentError::InvalidBuffer)
        } else {
            Ok(SegmentLaunch {
                mode,
                edge_elems: ew as usize,
                group_elems: gw as usize,
                output: output as usize,
                launch: gw != 0 && output != 0,
                groups_arg: groups as i32,
                width_arg: width as i32,
            })
        }
    }
}

/// Checks a segment operation's sizes and decides how it runs: edge and
/// segment buffer sizes must fit in `i32` and the input must have the
/// operation's input length.
pub fn segment_launch(kind: SegmentOp, edges: usize, groups: usize, width: usize, x_len: usize) -> (r: Result<SegmentLaunch, SegmentError>)
    ensures
        r == segment_check(kind, edges, groups, width, x_len),
{
    let ew = match edges.checked_mul(width) {
        Some(v) => v,
        None => {
            return Err(SegmentError::InvalidBuffer);
        },
    };
    let gw = match groups.checked_mul(width) {
        Some(v) => v,
        None => {
            return Err(SegmentError::InvalidBuffer);
        },
    };
    if ew > i32::MAX as usize || gw > i32::MAX as usize {
        return Err(SegmentError::InvalidBuffer);
    }
    let (mode, input, output): (i32, usize, usize) = match kind {
        SegmentOp::Sum => (0, ew, gw),
        SegmentOp::SumBackward => (1, gw, ew),
        SegmentOp::Softmax => (2, ew, ew),
        SegmentOp::SoftmaxBackward => (3, ew, ew),
    };
    if x_len != input {
        return Err(SegmentError::InvalidBuffer);
    }
    Ok(SegmentLaunch {
        mode,
        edge_elems: ew,
        group_elems: gw,
        output,
        launch: gw != 0 && output != 0,
        groups_arg: groups as i32,
        width_arg: width as i32,
    })
}

impl SegmentLaunch {
    /// Whether the operation reads the saved forward output (the softmax adjoint).
    pub fn needs_saved(&self) -> (b: bool)
        ensures
            b == (self.mode == 3),
    {
        self.mode == 3
    }

    /// Whether a launch writes a status word that is read back (the forward
    /// softmax, which reports non-finite logits).
    pub fn reports_status(&self) -> (b: bool)
        ensures
            b == (self.launch && self.mode == 2),
    {
        self.launch && self.mode == 2
    }

    /// The saved forward output must hold one value per edge element.
    pub fn check_saved(&self, saved_len: usize) -> (r: Result<(), SegmentError>)
        ensures
            r is Ok <==> saved_len == self.edge_elems,
            r matches Err(e) ==> e == SegmentError::InvalidBuffer,
    {
        if saved_len != self.edge_elems {
            Err(SegmentError::InvalidBuffer)
        } else {
            Ok(())
        }
    }
}

} // verus!
