//! DLPack interchange: validation of an imported tensor header before any
//! of its memory is touched, the window of elements such an import reads,
//! the gather of the elements through the header's strides, and the
//! arithmetic of exported views.

use vstd::prelude::*;
use crate::static_plan::{extent_product, checked_product, product_of, ints, prefix_product, product_usize,
    lemma_product_nonzero, lemma_checked_is_prefix, lemma_product_range};
use crate::text::{decimal, push_decimal};

verus! {

/// `kDLCPU`.
pub const K_DL_CPU: i32 = 1;

/// `kDLCUDA`.
pub const K_DL_CUDA: i32 = 2;

/// `kDLFloat`.
pub const K_DL_FLOAT: u8 = 2;

/// The fields of a `DLTensor` header as plain values: the shape and stride
/// arrays are read in full (`ndim` entries each) and the data pointer is
/// reduced to whether it is null.
pub struct DlHeader {
    pub device_type: i32,
    pub device_id: i32,
    pub ndim: i32,
    pub code: u8,
    pub bits: u8,
    pub lanes: u16,
    /// The extents, or `None` for a null shape pointer.
    pub shape: Option<Vec<i64>>,
    /// The element strides, or `None` for null strides (row-major contiguous).
    pub strides: Option<Vec<i64>>,
    pub data_null: bool,
    pub byte_offset: u64,
}

/// Why an imported DLPack tensor is refused.
#[derive(Clone, Copy, Debug, PartialEq, Eq, Structural)]
pub enum DlError {
    UnsupportedDevice,
    UnsupportedDtype,
    NegativeNdim,
    NullShape,
    NegativeExtent { extent: i64, dim: usize },
    NumelOverflow,
    StridesOutOfRange,
    NullData,
    MisalignedOffset,
    NegativeDeviceId,
}

/// Where the elements of an accepted import are read.
#[derive(Clone, Copy, Debug, PartialEq, Eq, Structural)]
pub enum DlSource {
    /// Host memory, read in place.
    Host,
    /// Device memory of CUDA device `ordinal`, downloaded first.
    Cuda { ordinal: u32 },
}

/// An accepted import: the shape of the new tensor and the window of
/// source elements to read.
pub struct DlImport {
    pub shape: Vec<usize>,
    pub numel: usize,
    /// The source strides in elements (`None`: row-major contiguous).
    pub strides: Option<Vec<i64>>,
    /// `None` for an empty tensor, whose data pointer is never touched.
    pub source: Option<DlSource>,
    /// Index of the first element read, in f32 elements from the data pointer.
    pub first: u64,
    /// Number of elements read from `first` on.
    pub window: usize,
}

/// Whether the header's arrays hold the `ndim` entries that it announces.
pub open spec fn header_arrays_read(h: DlHeader) -> bool {
    &&& (h.ndim >= 0 && h.shape is Some ==> h.shape->0@.len() == h.ndim)
    &&& (h.strides matches Some(st) ==> h.ndim >= 0 && st@.len() == h.ndim)
}

pub open spec fn extents_of(h: DlHeader) -> Seq<i64> {
    match h.shape {
        Some(v) => v@,
        None => seq![],
    }
}

/// The index of the first negative extent of `s[k..]`.
pub open spec fn first_negative(s: Seq<i64>, k: int) -> Option<int>
    decreases s.len() - k,
{
    if k < 0 || k >= s.len() {
        None
    } else if s[k] < 0 {
        Some(k)
    } else {
        first_negative(s, k + 1)
    }
}

pub open spec fn as_extents(s: Seq<i64>) -> Seq<usize> {
    s.map_values(|d: i64| d as usize)
}

pub open spec fn ints64(s: Seq<i64>) -> Seq<int> {
    s.map_values(|d: i64| d as int)
}

/// `sum min((shape[i] - 1) * strides[i], 0)` over `i < k`: the lowest
/// element offset a strided view reaches.
pub open spec fn stride_lo(shape: Seq<int>, strides: Seq<int>, k: int) -> int
    decreases k,
{
    if k <= 0 {
        0
    } else {
        let t = (shape[k - 1] - 1) * strides[k - 1];
        stride_lo(shape, strides, k - 1) + if t < 0 { t } else { 0 }
    }
}

/// `sum max((shape[i] - 1) * strides[i], 0)` over `i < k`: the highest
/// element offset a strided view reaches.
pub open spec fn stride_hi(shape: Seq<int>, strides: Seq<int>, k: int) -> int
    decreases k,
{
    if k <= 0 {
        0
    } else {
        let t = (shape[k - 1] - 1) * strides[k - 1];
        stride_hi(shape, strides, k - 1) + if t > 0 { t } else { 0 }
    }
}

/// The highest element offset read for a tensor of `numel` elements.
pub open spec fn highest_offset(shape: Seq<usize>, strides: Option<Seq<i64>>, numel: int) -> int {
    match strides {
        None => if numel == 0 { 0 } else { numel - 1 },
        Some(st) => stride_hi(ints(shape), ints64(st), shape.len() as int),
    }
}

/// Whether strides keep every gathered offset inside `[0, numel)`.
pub open spec fn strides_in_range(shape: Seq<usize>, strides: Option<Seq<i64>>, numel: int) -> bool {
    match strides {
        None => true,
        Some(st) => stride_lo(ints(shape), ints64(st), shape.len() as int) >= 0 && stride_hi(
            ints(shape),
            ints64(st),
            shape.len() as int,
        ) < numel,
    }
}

/// The decision on an imported header: the shape, element count, source,
/// first element and window length of the import, or the refusal.
pub open spec fn dl_check(h: DlHeader) -> Result<(Seq<usize>, int, Option<DlSource>, int, int), DlError> {
    if h.device_type != K_DL_CPU && h.device_type != K_DL_CUDA {
        Err(DlError::UnsupportedDevice)
    } else if h.code != K_DL_FLOAT || h.bits != 32 || h.lanes != 1 {
        Err(DlError::UnsupportedDtype)
    } else if h.ndim < 0 {
        Err(DlError::NegativeNdim)
    } else if h.ndim > 0 && h.shape is None {
        Err(DlError::NullShape)
    } else {
        let ext = extents_of(h);
        match first_negative(ext, 0) {
            Some(i) => Err(DlError::NegativeExtent { extent: ext[i], dim: i as usize }),
            None => {
                let shape = as_extents(ext);
                match product_of(ints(shape)) {
                    None => Err(DlError::NumelOverflow),
                    Some(numel) => if !strides_in_range(shape, strides_view(h.strides), numel) {
                        Err(DlError::StridesOutOfRange)
                    } else if numel == 0 {
                        Ok((shape, 0, None, 0, 0))
                    } else if h.data_null {
                        Err(DlError::NullData)
                    } else if h.byte_offset % 4 != 0 {
                        Err(DlError::MisalignedOffset)
                    } else if h.device_type == K_DL_CUDA && h.device_id < 0 {
                        Err(DlError::NegativeDeviceId)
                    } else {
                        let source = if h.device_type == K_DL_CUDA {
                            DlSource::Cuda { ordinal: h.device_id as u32 }
                        } else {
                            DlSource::Host
                        };
                        Ok((shape, numel, Some(source), (h.byte_offset / 4) as int, highest_offset(shape, strides_view(h.strides), numel) + 1))
                    },
                }
            },
        }
    }
}

proof fn lemma_stride_lo_nonpositive(shape: Seq<int>, strides: Seq<int>, k: int)
    requires
        0 <= k,
    ensures
        stride_lo(shape, strides, k) <= 0,
        stride_hi(shape, strides, k) >= 0,
    decreases k,
{
    if k > 0 {
        lemma_stride_lo_nonpositive(shape, strides, k - 1);
    }
}

/// `(shape[i] - 1) * strides[i]` for each dim `i`, exactly in `i128`.
fn dim_span(extent: usize, stride: i64) -> (t: i128)
    requires
        extent <= i64::MAX,
    ensures
        t == (extent - 1) * stride,
        -0x4000_0000_0000_0000_0000_0000_0000_0000 <= t <= 0x4000_0000_0000_0000_0000_0000_0000_0000,
{
    let a: i128 = extent as i128 - 1;
    let b: i128 = stride as i128;
    assert(-1 <= a <= i64::MAX && i64::MIN <= b <= i64::MAX);
    assert(-0x4000_0000_0000_0000_0000_0000_0000_0000 <= a * b <= 0x4000_0000_0000_0000_0000_0000_0000_0000) by (nonlinear_arith)
        requires
            -1 <= a <= 0x7fff_ffff_ffff_ffff,
            -0x8000_0000_0000_0000 <= b <= 0x7fff_ffff_ffff_ffff,
    ;
    a * b
}

/// The stride bounds, with the low bound clamped at -1 and the high bound
/// clamped at 2^64 (either clamp already decides the range check).
fn stride_bounds(shape: &Vec<usize>, strides: &Vec<i64>) -> (r: (i128, i128))
    requires
        strides@.len() == shape@.len(),
        forall|i: int| 0 <= i < shape@.len() ==> shape@[i] <= i64::MAX,
    ensures
        r.0 == (if stride_lo(ints(shape@), ints64(strides@), shape@.len() as int) < -1 { -1 } else { stride_lo(
            ints(shape@),
            ints64(strides@),
            shape@.len() as int,
        ) }),
        r.1 == (if stride_hi(ints(shape@), ints64(strides@), shape@.len() as int) > 0x1_0000_0000_0000_0000 {
            0x1_0000_0000_0000_0000
        } else {
            stride_hi(ints(shape@), ints64(strides@), shape@.len() as int)
        }),
{
    let ghost si = ints(shape@);
    let ghost st = ints64(strides@);
    let mut lo: i128 = 0;
    let mut hi: i128 = 0;
    let mut k: usize = 0;
    while k < shape.len()
        invariant
            k <= shape@.len() == strides@.len(),
            si == ints(shape@),
            st == ints64(strides@),
            forall|i: int| 0 <= i < shape@.len() ==> shape@[i] <= i64::MAX,
            lo == (if stride_lo(si, st, k as int) < -1 { -1 } else { stride_lo(si, st, k as int) }),
            hi == (if stride_hi(si, st, k as int) > 0x1_0000_0000_0000_0000 { 0x1_0000_0000_0000_0000 } else { stride_hi(si, st, k as int) }),
        decreases shape@.len() - k,
    {
        proof {
            lemma_stride_lo_nonpositive(si, st, k as int);
        }
        let t = dim_span(shape[k], strides[k]);
        if t < 0 {
            lo = lo + t;
            if lo < -1 {
                lo = -1;
            }
        } else {
            hi = hi + t;
            if hi > 0x1_0000_0000_0000_0000 {
                hi = 0x1_0000_0000_0000_0000;
            }
        }
        k = k + 1;
    }
    (lo, hi)
}

pub open spec fn strides_view(o: Option<Vec<i64>>) -> Option<Seq<i64>> {
    match o {
        Some(v) => Some(v@),
        None => None,
    }
}

impl DlImport {
    /// The shape has `numel` elements, the strides keep every gathered
    /// offset inside the tensor, and the window covers the highest offset.
    pub open spec fn wf(&self) -> bool {
        &&& product_of(ints(self.shape@)) == Some(self.numel as int)
        &&& forall|i: int| 0 <= i < self.shape@.len() ==> self.shape@[i] <= i64::MAX
        &&& (self.strides matches Some(st) ==> st@.len() == self.shape@.len())
        &&& strides_in_range(self.shape@, strides_view(self.strides), self.numel as int)
        &&& (self.numel == 0 ==> self.source is None && self.window == 0)
        &&& (self.numel > 0 ==> self.source is Some && self.window == highest_offset(
            self.shape@,
            strides_view(self.strides),
            self.numel as int,
        ) + 1)
    }
}

fn clone_strides(o: &Option<Vec<i64>>) -> (r: Option<Vec<i64>>)
    ensures
        strides_view(r) == strides_view(*o),
{
    match o {
        Some(v) => {
            let mut c: Vec<i64> = Vec::new();
            let mut k: usize = 0;
            while k < v.len()
                invariant
                    k <= v@.len(),
                    c@ == v@.subrange(0, k as int),
                decreases v@.len() - k,
            {
                c.push(v[k]);
                k = k + 1;
            }
            assert(c@ =~= v@);
            Some(c)
        },
        None => None,
    }
}

/// Validates an imported DLPack header before any of its memory is read:
/// f32 tensors on the host or a CUDA device, with non-negative extents whose
/// product fits in `usize`, strides that keep every element inside the
/// described range, and (for a nonempty tensor) a non-null, f32-aligned
/// data pointer. The import reads `window` elements starting `first`
/// elements past the data pointer.
pub fn check_header(h: &DlHeader) -> (r: Result<DlImport, DlError>)
    requires
        header_arrays_read(*h),
    ensures
        match dl_check(*h) {
            Err(e) => r matches Err(f) && f == e,
            Ok(v) => r matches Ok(imp) && {
                &&& imp.wf()
                &&& imp.shape@ == v.0
                &&& imp.numel == v.1
                &&& imp.source == v.2
                &&& imp.first == v.3
                &&& imp.window == v.4
                &&& strides_view(imp.strides) == strides_view(h.strides)
            },
        },
{
    if h.device_type != K_DL_CPU && h.device_type != K_DL_CUDA {
        return Err(DlError::UnsupportedDevice);
    }
    if h.code != K_DL_FLOAT || h.bits != 32 || h.lanes != 1 {
        return Err(DlError::UnsupportedDtype);
    }
    if h.ndim < 0 {
        return Err(DlError::NegativeNdim);
    }
    if h.ndim > 0 && h.shape.is_none() {
        return Err(DlError::NullShape);
    }
    let empty: Vec<i64> = Vec::new();
    let ext: &Vec<i64> = match &h.shape {
        Some(v) => v,
        None => &empty,
    };
    assert(ext@ == extents_of(*h));
    let mut shape: Vec<usize> = Vec::new();
    let mut k: usize = 0;
    while k < ext.len()
        invariant
            k <= ext@.len(),
            ext@ == extents_of(*h),
            h.device_type == K_DL_CPU || h.device_type == K_DL_CUDA,
            h.code == K_DL_FLOAT && h.bits == 32 && h.lanes == 1,
            h.ndim >= 0,
            !(h.ndim > 0 && h.shape is None),
            first_negative(ext@, 0) == first_negative(ext@, k as int),
            shape@ == as_extents(ext@).subrange(0, k as int),
            forall|i: int| 0 <= i < k ==> ext@[i] >= 0,
        decreases ext@.len() - k,
    {
        if ext[k] < 0 {
            assert(first_negative(ext@, k as int) == Some(k as int));
            return Err(DlError::NegativeExtent { extent: ext[k], dim: k });
        }
        shape.push(ext[k] as usize);
        k = k + 1;
    }
    assert(shape@ =~= as_extents(ext@));
    assert forall|i: int| 0 <= i < shape@.len() implies shape@[i] <= i64::MAX by {
        assert(ext@[i] >= 0);
    }
    let numel = match product_usize(shape.as_slice()) {
        Some(n) => n,
        None => {
            return Err(DlError::NumelOverflow);
        },
    };
    let top: usize = match &h.strides {
        Some(st) => {
            let (lo, hi) = stride_bounds(&shape, st);
            proof {
                lemma_stride_lo_nonpositive(ints(shape@), ints64(st@), shape@.len() as int);
            }
            if lo < 0 || hi >= numel as i128 {
                return Err(DlError::StridesOutOfRange);
            }
            hi as usize
        },
        None => if numel == 0 {
            0
        } else {
            numel - 1
        },
    };
    assert(top == highest_offset(shape@, strides_view(h.strides), numel as int));
    assert(top < numel || numel == 0);
    let strides = clone_strides(&h.strides);
    if numel == 0 {
        return Ok(DlImport { shape, numel, strides, source: None, first: 0, window: 0 });
    }
    if h.data_null {
        return Err(DlError::NullData);
    }
    if h.byte_offset % 4 != 0 {
        return Err(DlError::MisalignedOffset);
    }
    if h.device_type == K_DL_CUDA && h.device_id < 0 {
        return Err(DlError::NegativeDeviceId);
    }
    let source = if h.device_type == K_DL_CUDA {
        DlSource::Cuda { ordinal: h.device_id as u32 }
    } else {
        DlSource::Host
    };
    let window = top + 1;
    Ok(DlImport { shape, numel, strides, source: Some(source), first: h.byte_offset / 4, window })
}

// ---------------------------------------------------------------------------
// Gathering the elements of an accepted import

/// The offset, through `strides`, of row-major element `j` over the first
/// `k` dims: the last of them varies fastest.
pub open spec fn gather_offset(shape: Seq<int>, strides: Seq<int>, k: int, j: int) -> int
    decreases k,
{
    if k <= 0 {
        0
    } else {
        (j % shape[k - 1]) * strides[k - 1] + gather_offset(shape, strides, k - 1, j / shape[k - 1])
    }
}

/// The window index of element `j` of the new tensor (in row-major order).
pub open spec fn element_offset(shape: Seq<usize>, strides: Option<Seq<i64>>, j: int) -> int {
    match strides {
        None => j,
        Some(st) => gather_offset(ints(shape), ints64(st), shape.len() as int, j),
    }
}

/// Whether `t` holds the row-major strides of `s`: stride `i` is the product
/// of the extents after `i`.
pub open spec fn row_major(s: Seq<int>, t: Seq<int>) -> bool {
    &&& t.len() == s.len()
    &&& forall|i: int| 0 <= i < s.len() ==> #[trigger] t[i] == extent_product(s, i + 1)
}

proof fn lemma_prefix_product_nonneg(s: Seq<int>, k: int)
    requires
        0 <= k <= s.len(),
        forall|i: int| 0 <= i < s.len() ==> s[i] >= 0,
    ensures
        prefix_product(s, k) >= 0,
    decreases k,
{
    if k > 0 {
        lemma_prefix_product_nonneg(s, k - 1);
        let p = prefix_product(s, k - 1);
        let d = s[k - 1];
        assert(p * d >= 0) by (nonlinear_arith)
            requires
                p >= 0,
                d >= 0,
        ;
    }
}

/// Over the first `k` axes, row-major strides send element `j` to
/// `j` times the stride of axis `k - 1`.
proof fn lemma_row_major_offset(s: Seq<int>, t: Seq<int>, k: int, j: int)
    requires
        row_major(s, t),
        0 <= k <= s.len(),
        forall|i: int| 0 <= i < s.len() ==> s[i] >= 0,
        0 <= j < prefix_product(s, k),
    ensures
        gather_offset(s, t, k, j) == j * extent_product(s, k),
    decreases k,
{
    if k > 0 {
        let d = s[k - 1];
        let p = prefix_product(s, k - 1);
        lemma_prefix_product_nonneg(s, k - 1);
        assert(d > 0) by (nonlinear_arith)
            requires
                0 <= j < p * d,
                p >= 0,
                d >= 0,
        ;
        let q = j / d;
        let r = j % d;
        vstd::arithmetic::div_mod::lemma_fundamental_div_mod(j, d);
        vstd::arithmetic::div_mod::lemma_mod_pos_bound(j, d);
        assert(0 <= q < p) by (nonlinear_arith)
            requires
                j == d * q + r,
                0 <= r < d,
                0 <= j < p * d,
        ;
        lemma_row_major_offset(s, t, k - 1, q);
        let e = extent_product(s, k);
        assert(extent_product(s, k - 1) == d * e);
        assert(t[k - 1] == e);
        assert(gather_offset(s, t, k, j) == r * t[k - 1] + gather_offset(s, t, k - 1, q));
        assert(r * e + q * (d * e) == j * e) by (nonlinear_arith)
            requires
                j == d * q + r,
        ;
    } else {
        assert(j == 0);
        assert(j * extent_product(s, k) == 0) by (nonlinear_arith)
            requires
                j == 0,
        ;
    }
}

/// Stride law: explicit row-major strides gather the same elements, in the
/// same order, as null strides, which mean a row-major contiguous tensor.
pub proof fn law_row_major_strides_match_null_strides(shape: Seq<usize>, strides: Seq<i64>, j: int)
    requires
        row_major(ints(shape), ints64(strides)),
        0 <= j < prefix_product(ints(shape), shape.len() as int),
    ensures
        element_offset(shape, Some(strides), j) == element_offset(shape, None, j),
{
    let s = ints(shape);
    lemma_row_major_offset(s, ints64(strides), shape.len() as int, j);
    assert(extent_product(s, shape.len() as int) == 1);
}

/// A nonnegative low bound leaves no dim with a negative span.
proof fn lemma_lo_terms(s: Seq<int>, t: Seq<int>, k: int)
    requires
        0 <= k,
        stride_lo(s, t, k) >= 0,
    ensures
        forall|i: int| 0 <= i < k ==> (s[i] - 1) * t[i] >= 0,
    decreases k,
{
    if k > 0 {
        lemma_stride_lo_nonpositive(s, t, k - 1);
        lemma_lo_terms(s, t, k - 1);
    }
}

/// The digit times the stride of one dim lies in `[0, (m - 1) * stride]`.
proof fn lemma_digit_term(d: int, m: int, st: int)
    requires
        0 <= d < m,
        (m - 1) * st >= 0,
    ensures
        0 <= d * st <= (m - 1) * st,
        st < 0 ==> d == 0,
{
    if st >= 0 {
        assert(0 <= d * st <= (m - 1) * st) by (nonlinear_arith)
            requires
                0 <= d <= m - 1,
                st >= 0,
        ;
    } else {
        assert(m - 1 <= 0) by (nonlinear_arith)
            requires
                (m - 1) * st >= 0,
                st < 0,
                m >= 1,
        ;
        assert(d == 0);
    }
}

proof fn lemma_offset_nonneg(s: Seq<int>, t: Seq<int>, k: int, j: int)
    requires
        0 <= k <= s.len(),
        0 <= j,
        forall|i: int| 0 <= i < k ==> s[i] >= 1 && (s[i] - 1) * t[i] >= 0,
    ensures
        0 <= gather_offset(s, t, k, j),
    decreases k,
{
    if k > 0 {
        let m = s[k - 1];
        vstd::arithmetic::div_mod::lemma_mod_pos_bound(j, m);
        vstd::arithmetic::div_mod::lemma_div_pos_is_pos(j, m);
        lemma_digit_term(j % m, m, t[k - 1]);
        lemma_offset_nonneg(s, t, k - 1, j / m);
    }
}

/// Every element of the tensor gathers from inside `[0, stride_hi]`.
proof fn lemma_offset_bounds(s: Seq<int>, t: Seq<int>, k: int, j: int)
    requires
        0 <= k <= s.len(),
        forall|i: int| 0 <= i < k ==> s[i] >= 1 && (s[i] - 1) * t[i] >= 0,
        0 <= j < prefix_product(s, k),
    ensures
        0 <= gather_offset(s, t, k, j) <= stride_hi(s, t, k),
    decreases k,
{
    if k > 0 {
        let m = s[k - 1];
        let p = prefix_product(s, k - 1);
        let q = j / m;
        let d = j % m;
        vstd::arithmetic::div_mod::lemma_fundamental_div_mod(j, m);
        vstd::arithmetic::div_mod::lemma_mod_pos_bound(j, m);
        vstd::arithmetic::div_mod::lemma_div_pos_is_pos(j, m);
        assert(q < p) by (nonlinear_arith)
            requires
                j == m * q + d,
                0 <= d,
                j < p * m,
                m >= 1,
                q >= 0,
        ;
        lemma_digit_term(d, m, t[k - 1]);
        lemma_offset_bounds(s, t, k - 1, q);
    }
}

/// Whether no dim is empty and no dim spans downwards.
pub open spec fn nonneg_spans(shape: Seq<usize>, strides: Seq<i64>) -> bool {
    forall|i: int| 0 <= i < shape.len() ==> shape[i] >= 1 && (shape[i] - 1) * strides[i] >= 0
}

proof fn lemma_nonneg_spans(shape: Seq<usize>, st: Seq<i64>)
    requires
        st.len() == shape.len(),
        forall|i: int| 0 <= i < shape.len() ==> ints(shape)[i] != 0,
        forall|i: int| 0 <= i < shape.len() ==> (ints(shape)[i] - 1) * ints64(st)[i] >= 0,
    ensures
        nonneg_spans(shape, st),
{
    assert forall|i: int| 0 <= i < shape.len() implies shape[i] >= 1 && (shape[i] - 1) * st[i] >= 0 by {
        assert(ints(shape)[i] == shape[i]);
        assert(ints64(st)[i] == st[i]);
    }
}

/// The window index of element `j` through nonnegative-span strides.
fn strided_offset(shape: &Vec<usize>, strides: &Vec<i64>, j: usize) -> (off: usize)
    requires
        strides@.len() == shape@.len(),
        nonneg_spans(shape@, strides@),
        gather_offset(ints(shape@), ints64(strides@), shape@.len() as int, j as int) <= usize::MAX,
    ensures
        off == gather_offset(ints(shape@), ints64(strides@), shape@.len() as int, j as int),
{
    let ghost s = ints(shape@);
    let ghost t = ints64(strides@);
    let ghost total = gather_offset(s, t, shape@.len() as int, j as int);
    let mut acc: usize = 0;
    let mut rem: usize = j;
    let mut d: usize = shape.len();
    while d > 0
        invariant
            d <= shape@.len() == strides@.len(),
            s == ints(shape@),
            t == ints64(strides@),
            nonneg_spans(shape@, strides@),
            total <= usize::MAX,
            total == acc + gather_offset(s, t, d as int, rem as int),
        decreases d,
    {
        d = d - 1;
        let m = shape[d];
        let digit = rem % m;
        let sd = strides[d];
        proof {
            assert forall|i: int| 0 <= i < d implies s[i] >= 1 && (s[i] - 1) * t[i] >= 0 by {
                assert(s[i] == shape@[i] && t[i] == strides@[i]);
            }
            vstd::arithmetic::div_mod::lemma_mod_pos_bound(rem as int, m as int);
            lemma_digit_term(digit as int, m as int, sd as int);
            lemma_offset_nonneg(s, t, d as int, (rem / m) as int);
            assert(s[d as int] == m as int && t[d as int] == sd as int);
            assert(gather_offset(s, t, d + 1, rem as int) == digit * sd + gather_offset(s, t, d as int, (rem / m) as int));
        }
        let term: usize = if digit == 0 || sd < 0 {
            assert(digit == 0);
            assert(digit * sd == 0) by (nonlinear_arith)
                requires
                    digit == 0,
            ;
            0
        } else {
            assert(sd <= digit * sd) by (nonlinear_arith)
                requires
                    digit >= 1,
                    sd >= 0,
            ;
            let sdu = sd as usize;
            assert(sdu == sd);
            digit * sdu
        };
        acc = acc + term;
        rem = rem / m;
    }
    acc
}

/// The elements of an accepted import in row-major order of the new
/// tensor, gathered from the `window` elements that the import reads:
/// element `j` is the window element at [`element_offset`] of `j`.
pub fn gather<T: Copy>(imp: &DlImport, window: &Vec<T>) -> (out: Vec<T>)
    requires
        imp.wf(),
        window@.len() == imp.window,
    ensures
        out@.len() == imp.numel,
        forall|j: int| 0 <= j < imp.numel ==> out@[j] == window@[element_offset(imp.shape@, strides_view(imp.strides), j)],
{
    let ghost s = ints(imp.shape@);
    let ghost n = imp.shape@.len() as int;
    let mut out: Vec<T> = Vec::new();
    if imp.numel == 0 {
        return out;
    }
    proof {
        lemma_product_nonzero(s, n);
        lemma_checked_is_prefix(s, n);
        if let Some(st) = &imp.strides {
            lemma_lo_terms(s, ints64(st@), n);
        }
    }
    let mut j: usize = 0;
    while j < imp.numel
        invariant
            imp.wf(),
            window@.len() == imp.window,
            imp.numel > 0,
            s == ints(imp.shape@),
            n == imp.shape@.len(),
            forall|i: int| 0 <= i < n ==> s[i] != 0,
            prefix_product(s, n) == imp.numel,
            imp.strides matches Some(st) ==> forall|i: int| 0 <= i < n ==> (s[i] - 1) * ints64(st@)[i] >= 0,
            j <= imp.numel,
            out@.len() == j,
            forall|q: int| 0 <= q < j ==> out@[q] == window@[element_offset(imp.shape@, strides_view(imp.strides), q)],
        decreases imp.numel - j,
    {
        let off: usize = match &imp.strides {
            None => j,
            Some(st) => {
                proof {
                    let t = ints64(st@);
                    assert forall|i: int| 0 <= i < n implies s[i] >= 1 && (s[i] - 1) * t[i] >= 0 by {
                        assert(s[i] == imp.shape@[i]);
                    }
                    lemma_offset_bounds(s, t, n, j as int);
                    lemma_nonneg_spans(imp.shape@, st@);
                }
                strided_offset(&imp.shape, st, j)
            },
        };
        out.push(window[off]);
        j = j + 1;
    }
    out
}

// ---------------------------------------------------------------------------
// Messages and exports

/// The decimal spelling of a signed integer.
pub open spec fn signed_decimal(v: int) -> Seq<char> {
    if v < 0 {
        seq!['-'] + decimal((-v) as nat)
    } else {
        decimal(v as nat)
    }
}

/// The message an import is refused with.
pub open spec fn dl_error_message(e: DlError) -> Seq<char> {
    match e {
        DlError::UnsupportedDevice => "only CPU (kDLCPU) and CUDA (kDLCUDA) DLPack tensors are supported"@,
        DlError::UnsupportedDtype => "only float32 DLPack tensors are supported"@,
        DlError::NegativeNdim => "DLPack tensor has negative ndim"@,
        DlError::NullShape => "DLPack tensor has null shape"@,
        DlError::NegativeExtent { extent, dim } => "DLPack tensor has negative extent ("@ + signed_decimal(extent as int)
            + ") in dimension "@ + decimal(dim as nat),
        DlError::NumelOverflow => "DLPack tensor element count overflows usize"@,
        DlError::StridesOutOfRange => "DLPack tensor strides reach outside the described element range"@,
        DlError::NullData => "DLPack tensor has null data pointer"@,
        DlError::MisalignedOffset => "DLPack byte_offset is not f32-aligned"@,
        DlError::NegativeDeviceId => "DLPack tensor has negative device_id"@,
    }
}

impl DlError {
    /// The message the import is refused with.
    pub fn message(&self) -> (m: String)
        ensures
            m@ == dl_error_message(*self),
    {
        match self {
            DlError::UnsupportedDevice => String::from_str("only CPU (kDLCPU) and CUDA (kDLCUDA) DLPack tensors are supported"),
            DlError::UnsupportedDtype => String::from_str("only float32 DLPack tensors are supported"),
            DlError::NegativeNdim => String::from_str("DLPack tensor has negative ndim"),
            DlError::NullShape => String::from_str("DLPack tensor has null shape"),
            DlError::NegativeExtent { extent, dim } => {
                let mut m = String::from_str("DLPack tensor has negative extent (");
                if *extent < 0 {
                    m.append("-");
                    let magnitude: u64 = (0i128 - *extent as i128) as u64;
                    push_decimal(&mut m, magnitude);
                } else {
                    push_decimal(&mut m, *extent as u64);
                }
                m.append(") in dimension ");
                push_decimal(&mut m, *dim as u64);
                proof {
                    reveal_strlit("-");
                }
                assert(m@ =~= dl_error_message(*self));
                m
            },
            DlError::NumelOverflow => String::from_str("DLPack tensor element count overflows usize"),
            DlError::StridesOutOfRange => String::from_str("DLPack tensor strides reach outside the described element range"),
            DlError::NullData => String::from_str("DLPack tensor has null data pointer"),
            DlError::MisalignedOffset => String::from_str("DLPack byte_offset is not f32-aligned"),
            DlError::NegativeDeviceId => String::from_str("DLPack tensor has negative device_id"),
        }
    }
}

/// Byte offset of an exported view starting `offset_elems` f32 elements into
/// its allocation; `None` when it does not fit in `u64`. Element-scaled
/// offsets are always f32-aligned.
pub fn view_byte_offset(offset_elems: usize) -> (r: Option<u64>)
    ensures
        r == (if 4 * offset_elems <= u64::MAX { Some((4 * offset_elems) as u64) } else { None::<u64> }),
        r matches Some(b) ==> b % 4 == 0,
{
    (offset_elems as u64).checked_mul(4)
}

/// The `__dlpack_device__` pair of a tensor: `(kDLCUDA, ordinal)` on a CUDA
/// device, `(kDLCPU, 0)` on the host.
pub fn dlpack_device(cuda_ordinal: Option<u32>) -> (r: (i32, i32))
    ensures
        r == (match cuda_ordinal {
            Some(n) => (K_DL_CUDA, n as i32),
            None => (K_DL_CPU, 0i32),
        }),
{
    match cuda_ordinal {
        Some(n) => (K_DL_CUDA, n as i32),
        None => (K_DL_CPU, 0),
    }
}

} // verus!
