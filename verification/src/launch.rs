//! Host-side decisions of the device operations: 32-bit argument limits,
//! launch grids, the plans of reductions, per-axis sums, row softmax,
//! gathers and products, and the row-major to column-major GEMM mapping.

use vstd::prelude::*;
use crate::kernels::{reduce_grid, REDUCE_BLOCK};
use crate::text::{decimal, push_decimal};

verus! {

/// Threads per block of an elementwise launch.
pub const ELEMENTWISE_THREADS: u32 = 1024;

/// A one-dimensional launch grid.
#[derive(Clone, Copy, Debug, PartialEq, Eq, Structural)]
pub struct Grid {
    pub blocks: u32,
    pub threads: u32,
}

/// One thread per element in blocks of [`ELEMENTWISE_THREADS`]: `ceil(n / 1024)` blocks.
pub fn elementwise_grid(n: u32) -> (g: Grid)
    ensures
        g.blocks == (n as int + 1023) / 1024,
        g.threads == ELEMENTWISE_THREADS,
{
    let q = n / ELEMENTWISE_THREADS;
    let blocks = if n % ELEMENTWISE_THREADS != 0 { q + 1 } else { q };
    assert(blocks == (n as int + 1023) / 1024) by (nonlinear_arith)
        requires
            q == n / 1024,
            blocks == if n % 1024 != 0 { q + 1 } else { q as int },
    ;
    Grid { blocks, threads: ELEMENTWISE_THREADS }
}

/// An extent beyond what a kernel or cuBLAS argument can hold, or operands
/// of different lengths.
#[derive(Clone, Copy, Debug, PartialEq, Eq, Structural)]
pub enum LimitError {
    /// An element count beyond the `unsigned int` kernel argument range.
    ExceedsU32(usize),
    /// An extent beyond cuBLAS's `int` range.
    ExceedsI32(usize),
    /// Elementwise operands of different lengths.
    LengthMismatch(usize, usize),
}

pub open spec fn limit_message(e: LimitError) -> Seq<char> {
    match e {
        LimitError::ExceedsU32(n) => decimal(n as nat) + " elements exceeds the u32 kernel argument limit (4294967295)"@,
        LimitError::ExceedsI32(n) => decimal(n as nat) + " exceeds the cuBLAS i32 dimension limit"@,
        LimitError::LengthMismatch(a, b) => "length mismatch: "@ + decimal(a as nat) + " vs "@ + decimal(b as nat),
    }
}

impl LimitError {
    pub fn message(&self) -> (m: String)
        ensures
            m@ == limit_message(*self),
    {
        let mut m = String::new();
        match self {
            LimitError::ExceedsU32(n) => {
                push_decimal(&mut m, *n as u64);
                m.append(" elements exceeds the u32 kernel argument limit (4294967295)");
            },
            LimitError::ExceedsI32(n) => {
                push_decimal(&mut m, *n as u64);
                m.append(" exceeds the cuBLAS i32 dimension limit");
            },
            LimitError::LengthMismatch(a, b) => {
                m.append("length mismatch: ");
                push_decimal(&mut m, *a as u64);
                m.append(" vs ");
                push_decimal(&mut m, *b as u64);
            },
        }
        m
    }
}

/// An element count as an `unsigned int` kernel argument.
pub fn kernel_arg(n: usize) -> (r: Result<u32, LimitError>)
    ensures
        n <= u32::MAX ==> r == Ok::<u32, LimitError>(n as u32),
        n > u32::MAX ==> r == Err::<u32, LimitError>(LimitError::ExceedsU32(n)),
{
    if n <= u32::MAX as usize {
        Ok(n as u32)
    } else {
        Err(LimitError::ExceedsU32(n))
    }
}

/// An extent as a cuBLAS `int` argument.
pub fn blas_arg(n: usize) -> (r: Result<i32, LimitError>)
    ensures
        n <= i32::MAX ==> r == Ok::<i32, LimitError>(n as i32),
        n > i32::MAX ==> r == Err::<i32, LimitError>(LimitError::ExceedsI32(n)),
{
    if n <= i32::MAX as usize {
        Ok(n as i32)
    } else {
        Err(LimitError::ExceedsI32(n))
    }
}

/// The launch of an elementwise kernel over `n` elements, after its zeroed
/// output was allocated: none for an empty output (zero-sized launches are
/// invalid), else the count argument and the grid.
pub fn elementwise_launch(n: usize) -> (r: Result<Option<(u32, Grid)>, LimitError>)
    ensures
        n == 0 ==> r == Ok::<Option<(u32, Grid)>, LimitError>(None),
        n > u32::MAX ==> r == Err::<Option<(u32, Grid)>, LimitError>(LimitError::ExceedsU32(n)),
        0 < n <= u32::MAX ==> (r matches Ok(Some((c, g))) && c == n && g.blocks == (n + 1023) / 1024
            && g.threads == ELEMENTWISE_THREADS),
{
    if n == 0 {
        return Ok(None);
    }
    let c = kernel_arg(n)?;
    Ok(Some((c, elementwise_grid(c))))
}

/// Elementwise binary operands must have equal lengths.
pub fn check_same_len(a: usize, b: usize) -> (r: Result<(), LimitError>)
    ensures
        r is Ok <==> a == b,
        a != b ==> r == Err::<(), LimitError>(LimitError::LengthMismatch(a, b)),
{
    if a != b {
        Err(LimitError::LengthMismatch(a, b))
    } else {
        Ok(())
    }
}

/// How a full reduction over `n` elements runs.
#[derive(Clone, Copy, Debug, PartialEq, Eq, Structural)]
pub enum ReducePlan {
    /// No elements: the sum is a single zero and the mean a single NaN.
    Empty,
    /// Pass one writes one partial per block over `blocks` blocks of
    /// [`REDUCE_BLOCK`] threads; pass two reduces the partials in one block.
    TwoPass { n: u32, blocks: u32 },
}

pub fn reduce_plan(n: usize) -> (r: Result<ReducePlan, LimitError>)
    ensures
        n == 0 ==> r == Ok::<ReducePlan, LimitError>(ReducePlan::Empty),
        n > u32::MAX ==> r == Err::<ReducePlan, LimitError>(LimitError::ExceedsU32(n)),
        0 < n <= u32::MAX ==> r == Ok::<ReducePlan, LimitError>(ReducePlan::TwoPass {
            n: n as u32,
            blocks: if (n + 255) / 256 <= 2048 { ((n + 255) / 256) as u32 } else { 2048u32 },
        }),
{
    if n == 0 {
        return Ok(ReducePlan::Empty);
    }
    let c = kernel_arg(n)?;
    let blocks = reduce_grid(n);
    Ok(ReducePlan::TwoPass { n: c, blocks })
}

/// Product of `s[lo..hi]`.
pub open spec fn range_product(s: Seq<usize>, lo: int, hi: int) -> int
    decreases hi - lo,
{
    if lo >= hi {
        1
    } else {
        range_product(s, lo, hi - 1) * s[hi - 1]
    }
}

/// Whether every partial product of `s[lo..hi]` fits in `usize`.
pub open spec fn products_fit(s: Seq<usize>, lo: int, hi: int) -> bool {
    forall|j: int| lo <= j <= hi ==> #[trigger] range_product(s, lo, j) <= usize::MAX
}

/// The launch arguments of a per-axis sum: output count, reduced extent and
/// inner extent, and the grid.
#[derive(Clone, Copy, Debug, PartialEq, Eq, Structural)]
pub struct SumDimLaunch {
    pub n: u32,
    pub red: u32,
    pub inner: u32,
    pub grid: Grid,
}

/// How a sum over axis `dim` runs: the output has `outer * inner` elements.
#[derive(Clone, Copy, Debug, PartialEq, Eq, Structural)]
pub struct SumDimPlan {
    pub outer: usize,
    pub inner: usize,
    pub n: usize,
    pub launch: Option<SumDimLaunch>,
}

fn product_range(s: &Vec<usize>, lo: usize, hi: usize) -> (p: usize)
    requires
        lo <= hi <= s@.len(),
        products_fit(s@, lo as int, hi as int),
    ensures
        p == range_product(s@, lo as int, hi as int),
{
    let mut p: usize = 1;
    let mut k: usize = lo;
    while k < hi
        invariant
            lo <= k <= hi <= s@.len(),
            products_fit(s@, lo as int, hi as int),
            p == range_product(s@, lo as int, k as int),
        decreases hi - k,
    {
        assert(range_product(s@, lo as int, k + 1) == p * s@[k as int]);
        p = p * s[k];
        k = k + 1;
    }
    p
}

/// The plan of a sum over axis `dim` of a contiguous tensor of `shape`.
pub fn sum_dim_plan(shape: &Vec<usize>, dim: usize) -> (r: Result<SumDimPlan, LimitError>)
    requires
        dim < shape@.len(),
        products_fit(shape@, 0, dim as int),
        products_fit(shape@, dim + 1, shape@.len() as int),
        range_product(shape@, 0, dim as int) * range_product(shape@, dim + 1, shape@.len() as int) <= usize::MAX,
    ensures
        ({
            let outer = range_product(shape@, 0, dim as int);
            let inner = range_product(shape@, dim + 1, shape@.len() as int);
            let n = outer * inner;
            let red = shape@[dim as int];
            if n == 0 {
                r == Ok::<SumDimPlan, LimitError>(SumDimPlan { outer: outer as usize, inner: inner as usize, n: 0, launch: None })
            } else if red > u32::MAX {
                r == Err::<SumDimPlan, LimitError>(LimitError::ExceedsU32(red))
            } else if inner > u32::MAX {
                r == Err::<SumDimPlan, LimitError>(LimitError::ExceedsU32(inner as usize))
            } else if n > u32::MAX {
                r == Err::<SumDimPlan, LimitError>(LimitError::ExceedsU32(n as usize))
            } else {
                &&& r matches Ok(p)
                &&& r->Ok_0.outer == outer
                &&& r->Ok_0.inner == inner
                &&& r->Ok_0.n == n
                &&& r->Ok_0.launch == Some(SumDimLaunch {
                    n: n as u32,
                    red: red as u32,
                    inner: inner as u32,
                    grid: Grid { blocks: ((n + 1023) / 1024) as u32, threads: ELEMENTWISE_THREADS },
                })
            }
        }),
{
    let len = shape.len();
    let outer = product_range(shape, 0, dim);
    let inner = product_range(shape, dim + 1, len);
    let n = outer * inner;
    if n == 0 {
        return Ok(SumDimPlan { outer, inner, n, launch: None });
    }
    let red = kernel_arg(shape[dim])?;
    let inner_arg = kernel_arg(inner)?;
    let n_arg = kernel_arg(n)?;
    Ok(SumDimPlan { outer, inner, n, launch: Some(SumDimLaunch { n: n_arg, red, inner: inner_arg, grid: elementwise_grid(n_arg) }) })
}

/// How a row softmax over `rows x cols` elements runs.
#[derive(Clone, Copy, Debug, PartialEq, Eq, Structural)]
pub enum SoftmaxPlan {
    /// Nothing to normalize: a zeroed output of `n` elements.
    Empty { n: usize },
    /// Pass one reduces each row's max and exp-sum into `2 * rows` stats
    /// (one block of [`REDUCE_BLOCK`] threads per row); pass two applies them
    /// elementwise.
    TwoPass { n: u32, rows: u32, cols: u32, stats: u64 },
}

pub fn row_softmax_plan(rows: usize, cols: usize) -> (r: Result<SoftmaxPlan, LimitError>)
    requires
        rows * cols <= usize::MAX,
    ensures
        rows * cols == 0 ==> r == Ok::<SoftmaxPlan, LimitError>(SoftmaxPlan::Empty { n: (rows * cols) as usize }),
        rows * cols != 0 ==> r == if rows * cols > u32::MAX {
            Err::<SoftmaxPlan, LimitError>(LimitError::ExceedsU32((rows * cols) as usize))
        } else if rows > u32::MAX {
            Err::<SoftmaxPlan, LimitError>(LimitError::ExceedsU32(rows))
        } else if cols > u32::MAX {
            Err::<SoftmaxPlan, LimitError>(LimitError::ExceedsU32(cols))
        } else {
            Ok::<SoftmaxPlan, LimitError>(SoftmaxPlan::TwoPass { n: (rows * cols) as u32, rows: rows as u32, cols: cols as u32, stats: (2 * rows) as u64 })
        },
{
    let n = rows * cols;
    if n == 0 || rows == 0 {
        return Ok(SoftmaxPlan::Empty { n });
    }
    let n_arg = kernel_arg(n)?;
    let rows_arg = kernel_arg(rows)?;
    let cols_arg = kernel_arg(cols)?;
    Ok(SoftmaxPlan::TwoPass { n: n_arg, rows: rows_arg, cols: cols_arg, stats: (rows_arg as u64) * 2 })
}

/// The plan of a row gather of `rows` rows of `inner` elements: the inner
/// extent must be a kernel argument before anything is allocated; the
/// launch (none for an empty output) gets `inner` and the element count.
pub fn gather_plan(rows: usize, inner: usize) -> (r: Result<(usize, Option<(u32, u32)>), LimitError>)
    requires
        rows * inner <= usize::MAX,
    ensures
        inner > u32::MAX ==> r == Err::<(usize, Option<(u32, u32)>), LimitError>(LimitError::ExceedsU32(inner)),
        inner <= u32::MAX && rows * inner == 0 ==> r == Ok::<(usize, Option<(u32, u32)>), LimitError>((0usize, None)),
        inner <= u32::MAX && rows * inner != 0 ==> r == if rows * inner > u32::MAX {
            Err::<(usize, Option<(u32, u32)>), LimitError>(LimitError::ExceedsU32((rows * inner) as usize))
        } else {
            Ok::<(usize, Option<(u32, u32)>), LimitError>(((rows * inner) as usize, Some((inner as u32, (rows * inner) as u32))))
        },
{
    let inner_arg = kernel_arg(inner)?;
    let n = rows * inner;
    if n == 0 {
        return Ok((0, None));
    }
    let n_arg = kernel_arg(n)?;
    Ok((n, Some((inner_arg, n_arg))))
}

/// The plan of a row-major `(m,k) x (k,n)` product: all extents must be
/// cuBLAS arguments; the output has `m * n` zeroed elements and the GEMM
/// runs only for a nonempty inner extent.
pub fn matmul_plan(m: usize, k: usize, n: usize) -> (r: Result<(usize, bool), LimitError>)
    requires
        m * n <= usize::MAX,
    ensures
        ({
            let big = if m >= k && m >= n { m } else if k >= n { k } else { n };
            if big > i32::MAX {
                r == Err::<(usize, bool), LimitError>(LimitError::ExceedsI32(big))
            } else {
                r == Ok::<(usize, bool), LimitError>(((m * n) as usize, k > 0))
            }
        }),
{
    let mk = if m >= k { m } else { k };
    let big = if mk >= n { mk } else { n };
    blas_arg(big)?;
    Ok((m * n, k > 0))
}

/// The plan of a batched product of contiguous `(m,k)` and `(k,n)` slabs:
/// the output has `batch * m * n` zeroed elements and the GEMM runs only
/// when no extent is zero.
pub fn bmm_plan(batch: usize, m: usize, k: usize, n: usize) -> (r: Result<(usize, bool), LimitError>)
    requires
        batch * m <= usize::MAX,
        batch * m * n <= usize::MAX,
    ensures
        ({
            let kn = if k >= n { k } else { n };
            let mkn = if m >= kn { m } else { kn };
            let big = if batch >= mkn { batch } else { mkn };
            if big > i32::MAX {
                r == Err::<(usize, bool), LimitError>(LimitError::ExceedsI32(big))
            } else {
                r == Ok::<(usize, bool), LimitError>(((batch * m * n) as usize, k > 0 && batch > 0 && m > 0 && n > 0))
            }
        }),
{
    let kn = if k >= n { k } else { n };
    let mkn = if m >= kn { m } else { kn };
    let big = if batch >= mkn { batch } else { mkn };
    blas_arg(big)?;
    Ok((batch * m * n, k > 0 && batch > 0 && m > 0 && n > 0))
}

/// The extents of a broadcast launch: the output extents as `unsigned int`
/// arguments (each taken modulo 2^32), a rank-0 output launching as rank 1.
pub fn broadcast_dims(out_shape: &[usize]) -> (d: Vec<u32>)
    ensures
        out_shape@.len() == 0 ==> d@ == seq![1u32],
        out_shape@.len() > 0 ==> d@.len() == out_shape@.len() && forall|i: int| 0 <= i < d@.len() ==> d@[i] == out_shape@[i] as u32,
{
    let mut d: Vec<u32> = Vec::new();
    let mut i: usize = 0;
    while i < out_shape.len()
        invariant
            i <= out_shape@.len(),
            d@.len() == i,
            forall|j: int| 0 <= j < i ==> d@[j] == out_shape@[j] as u32,
        decreases out_shape@.len() - i,
    {
        d.push(out_shape[i] as u32);
        i = i + 1;
    }
    if d.len() == 0 {
        d.push(1);
    }
    d
}

// ---------------------------------------------------------------------------
// Row-major products on a column-major BLAS

/// The integer parameters of a cuBLAS GEMM (alpha 1, beta 0): operand
/// transposition flags, extents and leading dimensions.
#[derive(Clone, Copy, Debug, PartialEq, Eq, Structural)]
pub struct GemmDims {
    pub transa: bool,
    pub transb: bool,
    pub m: i32,
    pub n: i32,
    pub k: i32,
    pub lda: i32,
    pub ldb: i32,
    pub ldc: i32,
}

/// The parameters of [`row_major_gemm`].
pub open spec fn gemm_dims_of(m: usize, k: usize, n: usize, ta: bool, tb: bool) -> GemmDims {
    GemmDims {
        transa: tb,
        transb: ta,
        m: n as i32,
        n: m as i32,
        k: k as i32,
        lda: (if tb { k } else { n }) as i32,
        ldb: (if ta { m } else { k }) as i32,
        ldc: n as i32,
    }
}

/// The cuBLAS GEMM that computes row-major `C(m,n) = A(m,k) * B(k,n)`,
/// where `ta`/`tb` mean the operand's buffer stores its transpose. A
/// row-major buffer read column-major is the transpose, so the GEMM runs
/// `C^T = B^T * A^T` over the swapped operands (B's buffer as cuBLAS "A")
/// with `m` and `n` swapped; `C^T` column-major is `C` row-major.
pub fn row_major_gemm(m: usize, k: usize, n: usize, ta: bool, tb: bool) -> (g: GemmDims)
    ensures
        g == gemm_dims_of(m, k, n, ta, tb),
{
    GemmDims {
        transa: tb,
        transb: ta,
        m: n as i32,
        n: m as i32,
        k: k as i32,
        lda: (if tb { k } else { n }) as i32,
        ldb: (if ta { m } else { k }) as i32,
        ldc: n as i32,
    }
}

/// A strided-batched GEMM over contiguous per-batch slabs.
#[derive(Clone, Copy, Debug, PartialEq, Eq, Structural)]
pub struct StridedGemm {
    pub gemm: GemmDims,
    pub batch: i32,
    pub stride_a: i64,
    pub stride_b: i64,
    pub stride_c: i64,
}

/// [`row_major_gemm`] per batch slab: the slabs are contiguous, so the
/// strides are the slab sizes (cuBLAS "A" walks B's `(k,n)` slabs).
pub fn row_major_strided_gemm(batch: usize, m: usize, k: usize, n: usize, ta: bool, tb: bool) -> (g: StridedGemm)
    requires
        k * n <= usize::MAX,
        m * k <= usize::MAX,
        m * n <= usize::MAX,
    ensures
        g.gemm == gemm_dims_of(m, k, n, ta, tb),
        g.batch == batch as i32,
        g.stride_a == (k * n) as i64,
        g.stride_b == (m * k) as i64,
        g.stride_c == (m * n) as i64,
{
    StridedGemm {
        gemm: row_major_gemm(m, k, n, ta, tb),
        batch: batch as i32,
        stride_a: (k * n) as i64,
        stride_b: (m * k) as i64,
        stride_c: (m * n) as i64,
    }
}

/// Where a column-major GEMM reads element `(r, c)` of `op(X)` from X's
/// buffer with leading dimension `ld` (transposed or not).
pub open spec fn colmajor_at(trans: bool, ld: int, r: int, c: int) -> int {
    if trans {
        c + r * ld
    } else {
        r + c * ld
    }
}

/// Where element `(r, c)` of a logical `rows x cols` matrix sits in a
/// row-major buffer that stores the matrix (`t` false) or its transpose.
pub open spec fn stored_at(t: bool, rows: int, cols: int, r: int, c: int) -> int {
    if t {
        c * rows + r
    } else {
        r * cols + c
    }
}

/// The row-major mapping is exact: for extents that cuBLAS can take, the
/// GEMM's `op(A)(i,p)` reads logical `B(p,i)`, its `op(B)(p,j)` reads
/// logical `A(j,p)`, and its output element `(i,j)` is row-major `C(j,i)`;
/// so `sum_p op(A)(i,p) op(B)(p,j)` is `sum_p A(j,p) B(p,i)`, the
/// row-major product, written where row-major `C` keeps it.
pub proof fn law_gemm_mapping(m: usize, k: usize, n: usize, ta: bool, tb: bool)
    requires
        m <= i32::MAX,
        k <= i32::MAX,
        n <= i32::MAX,
    ensures
        ({
            let g = gemm_dims_of(m, k, n, ta, tb);
            &&& g.m == n && g.n == m && g.k == k
            &&& forall|i: int, p: int| 0 <= i < n && 0 <= p < k ==> colmajor_at(g.transa, g.lda as int, i, p)
                == stored_at(tb, k as int, n as int, p, i)
            &&& forall|p: int, j: int| 0 <= p < k && 0 <= j < m ==> colmajor_at(g.transb, g.ldb as int, p, j)
                == stored_at(ta, m as int, k as int, j, p)
            &&& forall|i: int, j: int| 0 <= i < n && 0 <= j < m ==> i + j * g.ldc == stored_at(false, m as int, n as int, j, i)
        }),
{
}

} // verus!
