//! Python-style tensor indexing: dims and indices counted from the end,
//! slices with Python semantics, index keys with an ellipsis, the gather of
//! a basic selection, and device names.

use vstd::prelude::*;
use crate::static_plan::{extent_product, prefix_product, ints, lemma_prefix_suffix};
use crate::text::{chars_of, debug_str, str_debug};

verus! {

/// Why an index, dim or key is refused.
#[derive(Clone, Copy, Debug, PartialEq, Eq, Structural)]
pub enum IndexError {
    /// `dim` names no axis of a rank-`ndim` tensor.
    DimOutOfRange { dim: isize, ndim: usize },
    /// `dim` names no insertion position of a rank-`ndim` tensor.
    InsertDimOutOfRange { dim: isize, ndim: usize },
    /// `index` names no element of an axis of `len` elements.
    IndexOutOfBounds { index: isize, len: usize },
    /// A slice with step zero.
    ZeroStep,
    /// More indices than axes.
    TooManyIndices { count: usize, ndim: usize },
    /// A key item that is neither an integer nor a slice.
    NotAnIndex,
}

/// An axis position counted from the end when negative.
pub open spec fn from_end(v: int, len: int) -> int {
    if v < 0 {
        v + len
    } else {
        v
    }
}

/// The axis `dim` names in a rank-`ndim` tensor (negative counts from the end).
pub fn norm_dim(dim: isize, ndim: usize) -> (r: Result<usize, IndexError>)
    requires
        ndim <= isize::MAX,
    ensures
        ({
            let d = from_end(dim as int, ndim as int);
            if 0 <= d < ndim {
                r == Ok::<usize, IndexError>(d as usize)
            } else {
                r == Err::<usize, IndexError>(IndexError::DimOutOfRange { dim, ndim })
            }
        }),
{
    let n = ndim as isize;
    let d = if dim < 0 { dim + n } else { dim };
    if d < 0 || d as usize >= ndim {
        return Err(IndexError::DimOutOfRange { dim, ndim });
    }
    Ok(d as usize)
}

/// The position `dim` names for inserting an axis into a rank-`ndim`
/// tensor (negative counts from the end of the rank-`ndim + 1` result);
/// positions up to `ndim + 1` pass this check.
pub fn insert_dim(dim: isize, ndim: usize) -> (r: Result<usize, IndexError>)
    requires
        ndim < isize::MAX,
    ensures
        ({
            let d = from_end(dim as int, ndim + 1);
            if 0 <= d <= ndim + 1 {
                r == Ok::<usize, IndexError>(d as usize)
            } else {
                r == Err::<usize, IndexError>(IndexError::InsertDimOutOfRange { dim, ndim })
            }
        }),
{
    let n = (ndim + 1) as isize;
    let d = if dim < 0 { dim + n } else { dim };
    if d < 0 || d as usize > ndim + 1 {
        return Err(IndexError::InsertDimOutOfRange { dim, ndim });
    }
    Ok(d as usize)
}

/// The element index `i` names along an axis of `len` elements (negative
/// counts from the end).
pub fn wrap_index(i: isize, len: usize) -> (r: Result<usize, IndexError>)
    requires
        len <= isize::MAX,
    ensures
        ({
            let j = from_end(i as int, len as int);
            if 0 <= j < len {
                r == Ok::<usize, IndexError>(j as usize)
            } else {
                r == Err::<usize, IndexError>(IndexError::IndexOutOfBounds { index: i, len })
            }
        }),
{
    let l = len as isize;
    let j = if i < 0 { i + l } else { i };
    if j < 0 || j >= l {
        return Err(IndexError::IndexOutOfBounds { index: i, len });
    }
    Ok(j as usize)
}

pub open spec fn clamp(v: int, lo: int, hi: int) -> int {
    if v < lo {
        lo
    } else if v > hi {
        hi
    } else {
        v
    }
}

/// First index and exclusive bound of a slice over `len` elements, as
/// Python resolves them: bounds count from the end when negative, then
/// clamp to `[0, len]` for a positive step and to `[-1, len - 1]` for a
/// negative one (whose defaults are the last element and "past the front").
pub open spec fn slice_bounds(start: Option<isize>, stop: Option<isize>, step: int, len: int) -> (int, int) {
    if step > 0 {
        let s = match start {
            Some(v) => clamp(from_end(v as int, len), 0, len),
            None => 0,
        };
        let e = match stop {
            Some(v) => clamp(from_end(v as int, len), 0, len),
            None => len,
        };
        (s, e)
    } else {
        let s = match start {
            Some(v) => clamp(from_end(v as int, len), -1, len - 1),
            None => len - 1,
        };
        let e = match stop {
            Some(v) => clamp(from_end(v as int, len), -1, len - 1),
            None => -1,
        };
        (s, e)
    }
}

/// Number of indices `s, s + step, ...` strictly before `e` (in the step's direction).
pub open spec fn slice_count(s: int, e: int, step: int) -> int {
    if step > 0 {
        if s < e {
            (e - s + step - 1) / step
        } else {
            0
        }
    } else {
        if s > e {
            (s - e - step - 1) / (-step)
        } else {
            0
        }
    }
}

/// The indices a slice selects from an axis of `len` elements.
pub open spec fn slice_seq(start: Option<isize>, stop: Option<isize>, step: int, len: int) -> Seq<int> {
    let (s, e) = slice_bounds(start, stop, step, len);
    Seq::new(slice_count(s, e, step) as nat, |t: int| s + t * step)
}

proof fn lemma_slice_terms(s: int, e: int, step: int, t: int)
    requires
        step != 0,
        0 <= t < slice_count(s, e, step),
    ensures
        step > 0 ==> s <= s + t * step < e,
        step < 0 ==> e < s + t * step <= s,
{
    if step > 0 {
        let a = e - s + step - 1;
        let q = a / step;
        vstd::arithmetic::div_mod::lemma_fundamental_div_mod(a, step);
        vstd::arithmetic::div_mod::lemma_mod_pos_bound(a, step);
        assert(t * step < e - s && t * step >= 0) by (nonlinear_arith)
            requires
                0 <= t < q,
                a == step * q + a % step,
                0 <= a % step < step,
                a == e - s + step - 1,
                step > 0,
        ;
    } else {
        let b = -step;
        let a = s - e + b - 1;
        let q = a / b;
        vstd::arithmetic::div_mod::lemma_fundamental_div_mod(a, b);
        vstd::arithmetic::div_mod::lemma_mod_pos_bound(a, b);
        assert(t * b < s - e && t * b >= 0) by (nonlinear_arith)
            requires
                0 <= t < q,
                a == b * q + a % b,
                0 <= a % b < b,
                a == s - e + b - 1,
                b > 0,
        ;
        assert(t * step == -(t * b)) by (nonlinear_arith)
            requires
                b == -step,
        ;
    }
}

/// Slice bound law: with a positive step and bounds `0 <= a <= b <= len`,
/// the slice `[a:b:step]` selects `a, a + step, a + 2 * step, ...` up to but
/// not including `b`: every selected index is below `b`, and the next one
/// after the last would reach `b`. With step 1 that is exactly `a..b`.
pub proof fn law_slice_within_bounds(a: isize, b: isize, step: int, len: int)
    requires
        0 <= a <= b <= len,
        step > 0,
    ensures
        forall|t: int| 0 <= t < slice_seq(Some(a), Some(b), step, len).len() ==> #[trigger] slice_seq(Some(a), Some(b), step, len)[t] == a + t * step
            && a + t * step < b,
        slice_seq(Some(a), Some(b), step, len).len() == 0 <==> a == b,
        slice_seq(Some(a), Some(b), step, len).len() > 0 ==> slice_seq(Some(a), Some(b), step, len)[slice_seq(Some(a), Some(b), step, len).len() - 1] + step >= b,
        step == 1 ==> slice_seq(Some(a), Some(b), step, len) =~= Seq::new((b - a) as nat, |t: int| a + t),
{
    let sq = slice_seq(Some(a), Some(b), step, len);
    assert(slice_bounds(Some(a), Some(b), step, len) == (a as int, b as int));
    let n = b - a + step - 1;
    let c = slice_count(a as int, b as int, step);
    assert(sq.len() == c);
    assert forall|t: int| 0 <= t < sq.len() implies #[trigger] sq[t] == a + t * step && a + t * step < b by {
        lemma_slice_terms(a as int, b as int, step, t);
    }
    if a < b {
        assert(c == n / step);
        vstd::arithmetic::div_mod::lemma_fundamental_div_mod(n, step);
        vstd::arithmetic::div_mod::lemma_mod_pos_bound(n, step);
        assert(c * step >= b - a && c > 0) by (nonlinear_arith)
            requires
                n == step * c + n % step,
                0 <= n % step < step,
                n == b - a + step - 1,
                step > 0,
                a < b,
        ;
    } else {
        assert(c == 0);
    }
    if c > 0 {
        assert(a + (c - 1) * step + step >= b) by (nonlinear_arith)
            requires
                c * step >= b - a,
        ;
    }
    if step == 1 {
        assert(c * 1 == c);
        if c > 0 {
            assert(sq[c - 1] == a + (c - 1) * step);
            assert((c - 1) * 1 == c - 1);
        }
        assert(c == b - a);
        assert forall|t: int| 0 <= t < sq.len() implies sq[t] == a + t by {
            assert(t * 1 == t);
        }
    }
}

/// Slice law: `[:]` selects every index of an axis in order, `[::-1]`
/// selects every index in reverse order, and a slice with a positive step
/// selects indices in increasing order (a negative step, decreasing), so no
/// index is selected twice.
pub proof fn law_slice_order(start: Option<isize>, stop: Option<isize>, step: int, len: int)
    requires
        len >= 0,
        step != 0,
    ensures
        slice_seq(None, None, 1, len) =~= Seq::new(len as nat, |i: int| i),
        slice_seq(None, None, -1, len) =~= Seq::new(len as nat, |i: int| len - 1 - i),
        forall|a: int, b: int|
            0 <= a < b < slice_seq(start, stop, step, len).len() ==> (if step > 0 {
                slice_seq(start, stop, step, len)[a] < slice_seq(start, stop, step, len)[b]
            } else {
                slice_seq(start, stop, step, len)[a] > slice_seq(start, stop, step, len)[b]
            }),
{
    assert(slice_count(0, len, 1) == len);
    assert(slice_count(len - 1, -1, -1) == len);
    assert forall|a: int, b: int|
        0 <= a < b < slice_seq(start, stop, step, len).len() implies (if step > 0 {
            slice_seq(start, stop, step, len)[a] < slice_seq(start, stop, step, len)[b]
        } else {
            slice_seq(start, stop, step, len)[a] > slice_seq(start, stop, step, len)[b]
        }) by {
        if step > 0 {
            assert(a * step < b * step) by (nonlinear_arith)
                requires
                    a < b,
                    step > 0,
            ;
        } else {
            assert(a * step > b * step) by (nonlinear_arith)
                requires
                    a < b,
                    step < 0,
            ;
        }
    }
}

/// The indices a Python slice `start:stop:step` selects from an axis of
/// `len` elements, in selection order. A zero step is refused.
pub fn slice_indices(start: Option<isize>, stop: Option<isize>, step: isize, len: usize) -> (r: Result<Vec<usize>, IndexError>)
    requires
        len <= isize::MAX,
    ensures
        step == 0 ==> r == Err::<Vec<usize>, IndexError>(IndexError::ZeroStep),
        step != 0 ==> (r matches Ok(v) && {
            let want = slice_seq(start, stop, step as int, len as int);
            &&& v@.len() == want.len()
            &&& forall|t: int| 0 <= t < want.len() ==> v@[t] as int == want[t] && want[t] < len
        }),
{
    if step == 0 {
        return Err(IndexError::ZeroStep);
    }
    let l = len as i128;
    let st = step as i128;
    let norm = |v: isize| -> (w: i128)
        ensures
            w == from_end(v as int, len as int),
        { if v < 0 { v as i128 + l } else { v as i128 } };
    let clamp_to = |v: i128, lo: i128, hi: i128| -> (w: i128)
        requires
            lo <= hi,
        ensures
            w == clamp(v as int, lo as int, hi as int),
        { if v < lo { lo } else if v > hi { hi } else { v } };
    let (s, e): (i128, i128) = if step > 0 {
        let s = match start {
            Some(v) => clamp_to(norm(v), 0, l),
            None => 0,
        };
        let e = match stop {
            Some(v) => clamp_to(norm(v), 0, l),
            None => l,
        };
        (s, e)
    } else {
        let s = match start {
            Some(v) => clamp_to(norm(v), -1, l - 1),
            None => l - 1,
        };
        let e = match stop {
            Some(v) => clamp_to(norm(v), -1, l - 1),
            None => -1,
        };
        (s, e)
    };
    assert((s as int, e as int) == slice_bounds(start, stop, step as int, len as int));
    let count: i128 = if step > 0 {
        if s < e { (e - s + st - 1) / st } else { 0 }
    } else {
        if s > e { (s - e - st - 1) / (0 - st) } else { 0 }
    };
    assert(count == slice_count(s as int, e as int, step as int));
    let ghost want = slice_seq(start, stop, step as int, len as int);
    proof {
        if count > 0 {
            lemma_slice_terms(s as int, e as int, step as int, 0);
            lemma_slice_terms(s as int, e as int, step as int, count - 1);
        }
        assert(count <= len) by {
            if count > 0 {
                lemma_slice_terms(s as int, e as int, step as int, count - 1);
                if step > 0 {
                    assert((count - 1) * step >= count - 1) by (nonlinear_arith)
                        requires
                            count >= 1,
                            step >= 1,
                    ;
                } else {
                    assert((count - 1) * step <= -(count - 1)) by (nonlinear_arith)
                        requires
                            count >= 1,
                            step <= -1,
                    ;
                }
            }
        }
    }
    let mut out: Vec<usize> = Vec::new();
    let mut t: i128 = 0;
    while t < count
        invariant
            step != 0,
            want == slice_seq(start, stop, step as int, len as int),
            (s as int, e as int) == slice_bounds(start, stop, step as int, len as int),
            count == slice_count(s as int, e as int, step as int),
            count == want.len(),
            count <= len,
            len <= isize::MAX,
            st == step,
            0 <= t <= count,
            out@.len() == t,
            forall|q: int| 0 <= q < t ==> out@[q] as int == want[q] && want[q] < len,
        decreases count - t,
    {
        proof {
            lemma_slice_terms(s as int, e as int, step as int, t as int);
        }
        assert(-0x8000_0000_0000_0000_0000_0000_0000_0000 < t * st < 0x8000_0000_0000_0000_0000_0000_0000_0000) by (nonlinear_arith)
            requires
                0 <= t <= len,
                len <= 0x7fff_ffff_ffff_ffff,
                -0x8000_0000_0000_0000 <= st <= 0x7fff_ffff_ffff_ffff,
        ;
        let i = s + t * st;
        assert(0 <= i < len);
        out.push(i as usize);
        t = t + 1;
        proof {
            if t < count {
                lemma_slice_terms(s as int, e as int, step as int, t as int);
            }
        }
    }
    Ok(out)
}

// ---------------------------------------------------------------------------
// Keys and selections

/// One item of an index key.
#[derive(Clone, Copy, Debug, PartialEq, Eq, Structural)]
pub enum KeyItem {
    Ellipsis,
    Index(isize),
    Slice { start: Option<isize>, stop: Option<isize>, step: Option<isize> },
    /// Neither an integer nor a slice.
    Invalid,
}

/// An index key: one item, or a tuple of items.
pub enum Key {
    Single(KeyItem),
    Tuple(Vec<KeyItem>),
}

/// The selection on one axis: one element (the axis is dropped) or a slice.
#[derive(Clone, Copy, Debug, PartialEq, Eq, Structural)]
pub enum Sel {
    Index(isize),
    Slice { start: Option<isize>, stop: Option<isize>, step: Option<isize> },
}

pub open spec fn full_axis() -> Sel {
    Sel::Slice { start: None, stop: None, step: None }
}

/// The selections of the first `k` items of a tuple key over `ndim` axes:
/// an ellipsis stands for as many full axes as the tuple leaves unspecified.
pub open spec fn expand_items(items: Seq<KeyItem>, ndim: int, k: int) -> Result<Seq<Sel>, IndexError>
    decreases k,
{
    if k <= 0 {
        Ok(seq![])
    } else {
        match expand_items(items, ndim, k - 1) {
            Err(e) => Err(e),
            Ok(s) => match items[k - 1] {
                KeyItem::Ellipsis => {
                    let fill = if ndim > items.len() - 1 { ndim - (items.len() - 1) } else { 0 };
                    Ok(s + Seq::new(fill as nat, |j: int| full_axis()))
                },
                KeyItem::Index(i) => Ok(s.push(Sel::Index(i))),
                KeyItem::Slice { start, stop, step } => Ok(s.push(Sel::Slice { start, stop, step })),
                KeyItem::Invalid => Err(IndexError::NotAnIndex),
            },
        }
    }
}

/// The per-axis selections of a key over a rank-`ndim` tensor.
pub open spec fn key_sels(key: Key, ndim: int) -> Result<Seq<Sel>, IndexError> {
    match key {
        Key::Single(KeyItem::Ellipsis) => Ok(Seq::new(ndim as nat, |j: int| full_axis())),
        Key::Single(KeyItem::Index(i)) => Ok(seq![Sel::Index(i)]),
        Key::Single(KeyItem::Slice { start, stop, step }) => Ok(seq![Sel::Slice { start, stop, step }]),
        Key::Single(KeyItem::Invalid) => Err(IndexError::NotAnIndex),
        Key::Tuple(items) => match expand_items(items@, ndim, items@.len() as int) {
            Err(e) => Err(e),
            Ok(s) => if s.len() > ndim {
                Err(IndexError::TooManyIndices { count: s.len() as usize, ndim: ndim as usize })
            } else {
                Ok(s)
            },
        },
    }
}

proof fn lemma_expand_err_sticks(items: Seq<KeyItem>, ndim: int, j: int, k: int)
    requires
        0 <= j <= k,
        expand_items(items, ndim, j) is Err,
    ensures
        expand_items(items, ndim, k) == expand_items(items, ndim, j),
    decreases k - j,
{
    if j < k {
        lemma_expand_err_sticks(items, ndim, j, k - 1);
    }
}

/// The per-axis selections of `key` over a rank-`ndim` tensor.
pub fn parse_key(key: &Key, ndim: usize) -> (r: Result<Vec<Sel>, IndexError>)
    ensures
        match key_sels(*key, ndim as int) {
            Ok(s) => r matches Ok(v) && v@ == s,
            Err(e) => r == Err::<Vec<Sel>, IndexError>(e),
        },
{
    match key {
        Key::Single(item) => match item {
            KeyItem::Ellipsis => {
                let mut v: Vec<Sel> = Vec::new();
                let mut j: usize = 0;
                while j < ndim
                    invariant
                        j <= ndim,
                        v@ == Seq::new(j as nat, |q: int| full_axis()),
                    decreases ndim - j,
                {
                    v.push(Sel::Slice { start: None, stop: None, step: None });
                    j = j + 1;
                    assert(v@ =~= Seq::new(j as nat, |q: int| full_axis()));
                }
                Ok(v)
            },
            KeyItem::Index(i) => Ok(vec![Sel::Index(*i)]),
            KeyItem::Slice { start, stop, step } => Ok(vec![Sel::Slice { start: *start, stop: *stop, step: *step }]),
            KeyItem::Invalid => Err(IndexError::NotAnIndex),
        },
        Key::Tuple(items) => {
            let n = items.len();
            let mut v: Vec<Sel> = Vec::new();
            let mut k: usize = 0;
            while k < n
                invariant
                    n == items@.len(),
                    k <= n,
                    *key matches Key::Tuple(it) && it@ == items@,
                    expand_items(items@, ndim as int, k as int) == Ok::<Seq<Sel>, IndexError>(v@),
                decreases n - k,
            {
                match items[k] {
                    KeyItem::Ellipsis => {
                        let fill: usize = if ndim > n - 1 { ndim - (n - 1) } else { 0 };
                        let ghost before = v@;
                        let mut j: usize = 0;
                        while j < fill
                            invariant
                                j <= fill,
                                v@ == before + Seq::new(j as nat, |q: int| full_axis()),
                            decreases fill - j,
                        {
                            v.push(Sel::Slice { start: None, stop: None, step: None });
                            j = j + 1;
                            assert(v@ =~= before + Seq::new(j as nat, |q: int| full_axis()));
                        }
                    },
                    KeyItem::Index(i) => {
                        v.push(Sel::Index(i));
                    },
                    KeyItem::Slice { start, stop, step } => {
                        v.push(Sel::Slice { start, stop, step });
                    },
                    KeyItem::Invalid => {
                        proof {
                            assert(expand_items(items@, ndim as int, k + 1) == Err::<Seq<Sel>, IndexError>(IndexError::NotAnIndex));
                            lemma_expand_err_sticks(items@, ndim as int, k + 1, n as int);
                        }
                        return Err(IndexError::NotAnIndex);
                    },
                }
                k = k + 1;
            }
            if v.len() > ndim {
                return Err(IndexError::TooManyIndices { count: v.len(), ndim });
            }
            Ok(v)
        },
    }
}

pub open spec fn ints_of(v: Seq<usize>) -> Seq<int> {
    v.map_values(|x: usize| x as int)
}

/// The indices one selection picks from an axis of `len` elements, and
/// whether the axis is kept in the result.
pub open spec fn axis_pick(sel: Sel, len: int) -> Result<(Seq<int>, bool), IndexError> {
    match sel {
        Sel::Index(i) => {
            let j = from_end(i as int, len);
            if 0 <= j < len {
                Ok((seq![j], false))
            } else {
                Err(IndexError::IndexOutOfBounds { index: i, len: len as usize })
            }
        },
        Sel::Slice { start, stop, step } => {
            let st = match step {
                Some(v) => v as int,
                None => 1,
            };
            if st == 0 {
                Err(IndexError::ZeroStep)
            } else {
                Ok((slice_seq(start, stop, st, len), true))
            }
        },
    }
}

/// The selection on axis `d`: axes past the key are taken whole.
pub open spec fn sel_at(sels: Seq<Sel>, d: int) -> Sel {
    if d < sels.len() {
        sels[d]
    } else {
        full_axis()
    }
}

/// The picks of the first `k` axes and the kept extents, or the first refusal.
pub open spec fn picks_upto(shape: Seq<usize>, sels: Seq<Sel>, k: int) -> Result<(Seq<Seq<int>>, Seq<usize>), IndexError>
    decreases k,
{
    if k <= 0 {
        Ok((seq![], seq![]))
    } else {
        match picks_upto(shape, sels, k - 1) {
            Err(e) => Err(e),
            Ok((p, out)) => match axis_pick(sel_at(sels, k - 1), shape[k - 1] as int) {
                Err(e) => Err(e),
                Ok((idx, keep)) => Ok((p.push(idx), if keep { out.push(idx.len() as usize) } else { out })),
            },
        }
    }
}

proof fn lemma_picks_err_sticks(shape: Seq<usize>, sels: Seq<Sel>, j: int, k: int)
    requires
        0 <= j <= k,
        picks_upto(shape, sels, j) is Err,
    ensures
        picks_upto(shape, sels, k) == picks_upto(shape, sels, j),
    decreases k - j,
{
    if j < k {
        lemma_picks_err_sticks(shape, sels, j, k - 1);
    }
}

/// Resolves the selections against the axes of `shape`: the indices picked
/// on every axis (in order) and the extents of the result.
pub fn select_axes(shape: &Vec<usize>, sels: &Vec<Sel>) -> (r: Result<(Vec<Vec<usize>>, Vec<usize>), IndexError>)
    requires
        forall|d: int| 0 <= d < shape@.len() ==> shape@[d] <= isize::MAX,
    ensures
        match picks_upto(shape@, sels@, shape@.len() as int) {
            Err(e) => r matches Err(f) && f == e,
            Ok((p, out)) => r matches Ok((dims, o)) && {
                &&& o@ == out
                &&& dims@.len() == p.len()
                &&& forall|d: int| 0 <= d < p.len() ==> ints_of(#[trigger] dims@[d]@) == p[d]
            },
        },
{
    let rank = shape.len();
    let mut dims: Vec<Vec<usize>> = Vec::new();
    let mut out: Vec<usize> = Vec::new();
    let mut d: usize = 0;
    while d < rank
        invariant
            rank == shape@.len(),
            d <= rank,
            forall|q: int| 0 <= q < shape@.len() ==> shape@[q] <= isize::MAX,
            picks_upto(shape@, sels@, d as int) matches Ok((p, o)) && o == out@ && dims@.len() == p.len() && forall|q: int|
                0 <= q < p.len() ==> ints_of(#[trigger] dims@[q]@) == p[q],
        decreases rank - d,
    {
        let len = shape[d];
        let sel = if d < sels.len() { sels[d] } else { Sel::Slice { start: None, stop: None, step: None } };
        assert(sel == sel_at(sels@, d as int));
        let ghost prev = picks_upto(shape@, sels@, d as int)->Ok_0;
        let picked: Result<(Vec<usize>, bool), IndexError> = match sel {
            Sel::Index(i) => match wrap_index(i, len) {
                Ok(j) => Ok((vec![j], false)),
                Err(e) => Err(e),
            },
            Sel::Slice { start, stop, step } => {
                let st: isize = match step {
                    Some(v) => v,
                    None => 1,
                };
                match slice_indices(start, stop, st, len) {
                    Ok(v) => Ok((v, true)),
                    Err(e) => Err(e),
                }
            },
        };
        match picked {
            Ok((idx, keep)) => {
                let ghost want = axis_pick(sel, len as int)->Ok_0;
                assert(ints_of(idx@) =~= want.0);
                assert(keep == want.1);
                if keep {
                    out.push(idx.len());
                }
                dims.push(idx);
                proof {
                    assert forall|q: int| 0 <= q < prev.0.len() + 1 implies ints_of(#[trigger] dims@[q]@) == prev.0.push(want.0)[q] by {
                    }
                }
            },
            Err(e) => {
                proof {
                    lemma_picks_err_sticks(shape@, sels@, d + 1, rank as int);
                }
                return Err(e);
            },
        }
        d = d + 1;
    }
    Ok((dims, out))
}

// ---------------------------------------------------------------------------
// Gathering a selection

/// Product of the pick counts of the first `k` axes.
pub open spec fn picks_total(p: Seq<Seq<int>>, k: int) -> int
    decreases k,
{
    if k <= 0 {
        1
    } else {
        picks_total(p, k - 1) * p[k - 1].len()
    }
}

/// Where element `n` of a selection (row-major over the picks of the first
/// `k` axes, the last fastest) sits in a contiguous tensor of `shape`.
pub open spec fn selection_offset(p: Seq<Seq<int>>, shape: Seq<usize>, k: int, n: int) -> int
    decreases k,
{
    if k <= 0 {
        0
    } else {
        let c = p[k - 1].len() as int;
        p[k - 1][n % c] * extent_product(ints(shape), k) + selection_offset(p, shape, k - 1, n / c)
    }
}

/// `sum (shape[d] - 1) * stride[d]` over `d < k`, the largest offset.
pub open spec fn last_offset(shape: Seq<usize>, k: int) -> int
    decreases k,
{
    if k <= 0 {
        0
    } else {
        (shape[k - 1] - 1) * extent_product(ints(shape), k) + last_offset(shape, k - 1)
    }
}

/// Whether the picks name elements of `shape` and no axis is picked more
/// often than it is long.
pub open spec fn picks_within(p: Seq<Seq<int>>, shape: Seq<usize>) -> bool {
    &&& p.len() == shape.len()
    &&& forall|d: int| 0 <= d < p.len() ==> (#[trigger] p[d]).len() <= shape[d]
    &&& forall|d: int, j: int| 0 <= d < p.len() && 0 <= j < p[d].len() ==> 0 <= #[trigger] p[d][j] < shape[d]
}

proof fn lemma_extent_nonneg(s: Seq<int>, d: int)
    requires
        forall|i: int| 0 <= i < s.len() ==> s[i] >= 0,
    ensures
        extent_product(s, d) >= 0,
    decreases s.len() - d,
{
    if 0 <= d < s.len() {
        lemma_extent_nonneg(s, d + 1);
        let a = s[d];
        let b = extent_product(s, d + 1);
        assert(a * b >= 0) by (nonlinear_arith)
            requires
                a >= 0,
                b >= 0,
        ;
    }
}

/// The largest offset telescopes: `sum (s[d] - 1) * P(d + 1) = P(0) - P(k)`.
proof fn lemma_last_offset(shape: Seq<usize>, k: int)
    requires
        0 <= k <= shape.len(),
    ensures
        last_offset(shape, k) == extent_product(ints(shape), 0) - extent_product(ints(shape), k),
    decreases k,
{
    if k > 0 {
        lemma_last_offset(shape, k - 1);
        let s = ints(shape);
        let a = shape[k - 1] as int;
        let b = extent_product(s, k);
        assert(extent_product(s, k - 1) == a * b);
        assert((a - 1) * b == a * b - b) by (nonlinear_arith);
    }
}

proof fn lemma_selection_bounds(p: Seq<Seq<int>>, shape: Seq<usize>, k: int, n: int)
    requires
        picks_within(p, shape),
        0 <= k <= shape.len(),
        0 <= n < picks_total(p, k),
    ensures
        0 <= selection_offset(p, shape, k, n) <= last_offset(shape, k),
    decreases k,
{
    if k > 0 {
        let c = p[k - 1].len() as int;
        let prev = picks_total(p, k - 1);
        lemma_picks_total_nonneg(p, k - 1);
        assert(c > 0) by (nonlinear_arith)
            requires
                n < prev * c,
                0 <= n,
                prev >= 0,
                c >= 0,
        ;
        let q = n / c;
        let digit = n % c;
        vstd::arithmetic::div_mod::lemma_fundamental_div_mod(n, c);
        vstd::arithmetic::div_mod::lemma_mod_pos_bound(n, c);
        vstd::arithmetic::div_mod::lemma_div_pos_is_pos(n, c);
        assert(q < prev) by (nonlinear_arith)
            requires
                n == c * q + digit,
                0 <= digit,
                n < prev * c,
                c >= 1,
                q >= 0,
        ;
        lemma_selection_bounds(p, shape, k - 1, q);
        let e = p[k - 1][digit];
        let stride = extent_product(ints(shape), k);
        lemma_extent_nonneg(ints(shape), k);
        assert(0 <= e * stride <= (shape[k - 1] - 1) * stride) by (nonlinear_arith)
            requires
                0 <= e <= shape[k - 1] - 1,
                stride >= 0,
        ;
    }
}

proof fn lemma_picks_total_nonneg(p: Seq<Seq<int>>, k: int)
    ensures
        picks_total(p, k) >= 0,
    decreases k,
{
    if k > 0 {
        lemma_picks_total_nonneg(p, k - 1);
        let a = picks_total(p, k - 1);
        let b = p[k - 1].len() as int;
        assert(a * b >= 0) by (nonlinear_arith)
            requires
                a >= 0,
                b >= 0,
        ;
    }
}

proof fn lemma_selection_nonneg(p: Seq<Seq<int>>, shape: Seq<usize>, k: int, n: int)
    requires
        picks_within(p, shape),
        0 <= k <= shape.len(),
        forall|d: int| 0 <= d < k ==> (#[trigger] p[d]).len() >= 1,
        0 <= n,
    ensures
        0 <= selection_offset(p, shape, k, n),
    decreases k,
{
    if k > 0 {
        let c = p[k - 1].len() as int;
        vstd::arithmetic::div_mod::lemma_mod_pos_bound(n, c);
        vstd::arithmetic::div_mod::lemma_div_pos_is_pos(n, c);
        lemma_selection_nonneg(p, shape, k - 1, n / c);
        let e = p[k - 1][n % c];
        let stride = extent_product(ints(shape), k);
        lemma_extent_nonneg(ints(shape), k);
        assert(e * stride >= 0) by (nonlinear_arith)
            requires
                e >= 0,
                stride >= 0,
        ;
    }
}

/// With no empty axis, the selection has at most as many elements as the tensor.
proof fn lemma_total_below(p: Seq<Seq<int>>, shape: Seq<usize>, k: int)
    requires
        picks_within(p, shape),
        0 <= k <= shape.len(),
        forall|d: int| 0 <= d < shape.len() ==> (#[trigger] p[d]).len() >= 1,
    ensures
        1 <= picks_total(p, k) <= prefix_product(ints(shape), k),
    decreases k,
{
    if k > 0 {
        lemma_total_below(p, shape, k - 1);
        let a = picks_total(p, k - 1);
        let b = prefix_product(ints(shape), k - 1);
        let c = p[k - 1].len() as int;
        let m = shape[k - 1] as int;
        assert(1 <= a * c <= b * m) by (nonlinear_arith)
            requires
                1 <= a <= b,
                1 <= c <= m,
        ;
    }
}

/// Row-major strides of `shape`: `strides[d] = shape[d + 1] * ... * shape[rank - 1]`.
fn row_major_strides(shape: &Vec<usize>) -> (st: Vec<usize>)
    requires
        forall|d: int| 1 <= d <= shape@.len() ==> #[trigger] extent_product(ints(shape@), d) <= usize::MAX,
    ensures
        st@.len() == shape@.len(),
        forall|d: int| 0 <= d < shape@.len() ==> st@[d] == extent_product(ints(shape@), d + 1),
{
    let rank = shape.len();
    let mut st: Vec<usize> = Vec::new();
    let mut j: usize = 0;
    while j < rank
        invariant
            j <= rank,
            st@.len() == j,
        decreases rank - j,
    {
        st.push(1);
        j = j + 1;
    }
    let mut cur: usize = 1;
    let mut d: usize = rank;
    while d > 0
        invariant
            rank == shape@.len(),
            d <= rank,
            st@.len() == rank,
            forall|q: int| 1 <= q <= shape@.len() ==> #[trigger] extent_product(ints(shape@), q) <= usize::MAX,
            d > 0 ==> cur == extent_product(ints(shape@), d as int),
            forall|q: int| d <= q < rank ==> st@[q] == extent_product(ints(shape@), q + 1),
        decreases d,
    {
        d = d - 1;
        st.set(d, cur);
        if d > 0 {
            assert(extent_product(ints(shape@), d as int) == shape@[d as int] * extent_product(ints(shape@), d + 1));
            cur = shape[d] * cur;
        }
    }
    st
}

/// The elements of a contiguous tensor of `shape` that the picks select, in
/// row-major order of the picks (the last axis fastest).
pub fn gather_selection<T: Copy>(data: &Vec<T>, shape: &Vec<usize>, dims: &Vec<Vec<usize>>) -> (out: Vec<T>)
    requires
        shape@.len() >= 1,
        data@.len() == extent_product(ints(shape@), 0),
        forall|d: int| 1 <= d <= shape@.len() ==> #[trigger] extent_product(ints(shape@), d) <= usize::MAX,
        picks_within(dims@.map_values(|v: Vec<usize>| ints_of(v@)), shape@),
    ensures
        ({
            let p = dims@.map_values(|v: Vec<usize>| ints_of(v@));
            &&& out@.len() == picks_total(p, p.len() as int)
            &&& forall|n: int| 0 <= n < out@.len() ==> out@[n] == data@[selection_offset(p, shape@, p.len() as int, n)]
        }),
{
    let ghost p = dims@.map_values(|v: Vec<usize>| ints_of(v@));
    let ghost s = ints(shape@);
    let rank = shape.len();
    let dlen = data.len();
    let strides = row_major_strides(shape);
    let mut empty = false;
    let mut d: usize = 0;
    while d < rank
        invariant
            d <= rank == shape@.len() == dims@.len(),
            p == dims@.map_values(|v: Vec<usize>| ints_of(v@)),
            empty <==> exists|q: int| 0 <= q < d && (#[trigger] p[q]).len() == 0,
        decreases rank - d,
    {
        assert(p[d as int].len() == dims@[d as int]@.len());
        if dims[d].len() == 0 {
            empty = true;
        }
        d = d + 1;
    }
    let mut out: Vec<T> = Vec::new();
    if empty {
        proof {
            let q = choose|q: int| 0 <= q < rank && (#[trigger] p[q]).len() == 0;
            lemma_total_zero(p, q, rank as int);
        }
        return out;
    }
    proof {
        lemma_total_below(p, shape@, rank as int);
        lemma_prefix_suffix(s, rank as int);
        assert(extent_product(s, rank as int) == 1);
        lemma_last_offset(shape@, rank as int);
    }
    let mut total: usize = 1;
    let mut k: usize = 0;
    while k < rank
        invariant
            k <= rank == shape@.len() == dims@.len(),
            p == dims@.map_values(|v: Vec<usize>| ints_of(v@)),
            picks_within(p, shape@),
            forall|q: int| 0 <= q < rank ==> (#[trigger] p[q]).len() >= 1,
            total == picks_total(p, k as int),
            picks_total(p, rank as int) <= data@.len(),
            dlen == data@.len(),
        decreases rank - k,
    {
        proof {
            lemma_total_prefix_below(p, shape@, k as int + 1, rank as int);
        }
        assert(p[k as int].len() == dims@[k as int]@.len());
        total = total * dims[k].len();
        k = k + 1;
    }
    let mut n: usize = 0;
    while n < total
        invariant
            rank == shape@.len() == dims@.len() == strides@.len(),
            p == dims@.map_values(|v: Vec<usize>| ints_of(v@)),
            s == ints(shape@),
            picks_within(p, shape@),
            forall|q: int| 0 <= q < rank ==> (#[trigger] p[q]).len() >= 1,
            forall|q: int| 0 <= q < rank ==> strides@[q] == extent_product(s, q + 1),
            total == picks_total(p, rank as int),
            last_offset(shape@, rank as int) == data@.len() - 1,
            dlen == data@.len(),
            n <= total,
            out@.len() == n,
            forall|q: int| 0 <= q < n ==> out@[q] == data@[selection_offset(p, shape@, rank as int, q)],
        decreases total - n,
    {
        proof {
            lemma_selection_bounds(p, shape@, rank as int, n as int);
        }
        let ghost whole = selection_offset(p, shape@, rank as int, n as int);
        let mut off: usize = 0;
        let mut rem: usize = n;
        let mut e: usize = rank;
        while e > 0
            invariant
                rank == shape@.len() == dims@.len() == strides@.len(),
                p == dims@.map_values(|v: Vec<usize>| ints_of(v@)),
                s == ints(shape@),
                picks_within(p, shape@),
                forall|q: int| 0 <= q < rank ==> (#[trigger] p[q]).len() >= 1,
                forall|q: int| 0 <= q < rank ==> strides@[q] == extent_product(s, q + 1),
                e <= rank,
                whole == off + selection_offset(p, shape@, e as int, rem as int),
                whole < data@.len(),
                dlen == data@.len(),
            decreases e,
        {
            e = e - 1;
            let c = dims[e].len();
            assert(p[e as int].len() == c);
            let digit = rem % c;
            let at = dims[e][digit];
            proof {
                assert(p[e as int][digit as int] == at);
                lemma_selection_nonneg(p, shape@, e as int, (rem / c) as int);
                assert(selection_offset(p, shape@, e + 1, rem as int) == at * strides@[e as int] + selection_offset(p, shape@, e as int, (rem / c) as int));
                assert(at * strides@[e as int] >= 0) by (nonlinear_arith)
                    requires
                        at >= 0,
                        strides@[e as int] >= 0,
                ;
            }
            off = off + at * strides[e];
            rem = rem / c;
        }
        out.push(data[off]);
        n = n + 1;
    }
    out
}

proof fn lemma_total_zero(p: Seq<Seq<int>>, q: int, k: int)
    requires
        0 <= q < k,
        p[q].len() == 0,
    ensures
        picks_total(p, k) == 0,
    decreases k,
{
    let c = p[k - 1].len() as int;
    let a = picks_total(p, k - 1);
    if k - 1 > q {
        lemma_total_zero(p, q, k - 1);
        assert(a * c == 0) by (nonlinear_arith)
            requires
                a == 0,
        ;
    } else {
        assert(a * c == 0) by (nonlinear_arith)
            requires
                c == 0,
        ;
    }
}

/// Every prefix of the pick counts stays below the whole count of a nonempty selection.
proof fn lemma_total_prefix_below(p: Seq<Seq<int>>, shape: Seq<usize>, j: int, k: int)
    requires
        picks_within(p, shape),
        0 <= j <= k <= shape.len(),
        forall|q: int| 0 <= q < shape.len() ==> (#[trigger] p[q]).len() >= 1,
    ensures
        1 <= picks_total(p, j) <= picks_total(p, k),
    decreases k - j,
{
    lemma_total_below(p, shape, j);
    if j < k {
        lemma_total_prefix_below(p, shape, j, k - 1);
        lemma_total_below(p, shape, k - 1);
        let a = picks_total(p, k - 1);
        let b = p[k - 1].len() as int;
        assert(a <= a * b) by (nonlinear_arith)
            requires
                a >= 1,
                b >= 1,
        ;
    }
}

/// A Python slice over `len` elements picks at most `len` indices, all in `[0, len)`.
proof fn lemma_slice_seq_within(start: Option<isize>, stop: Option<isize>, step: int, len: int)
    requires
        step != 0,
        len >= 0,
    ensures
        slice_seq(start, stop, step, len).len() <= len,
        forall|t: int| 0 <= t < slice_seq(start, stop, step, len).len() ==> 0 <= #[trigger] slice_seq(start, stop, step, len)[t] < len,
{
    let (s, e) = slice_bounds(start, stop, step, len);
    let count = slice_count(s, e, step);
    let want = slice_seq(start, stop, step, len);
    assert forall|t: int| 0 <= t < count implies 0 <= #[trigger] want[t] < len by {
        lemma_slice_terms(s, e, step, t);
    }
    if count > 0 {
        lemma_slice_terms(s, e, step, 0);
        lemma_slice_terms(s, e, step, count - 1);
        if step > 0 {
            assert((count - 1) * step >= count - 1) by (nonlinear_arith)
                requires
                    count >= 1,
                    step >= 1,
            ;
        } else {
            assert((count - 1) * step <= -(count - 1)) by (nonlinear_arith)
                requires
                    count >= 1,
                    step <= -1,
            ;
        }
    }
}

/// Resolved picks name elements of the axes and never outnumber them.
proof fn lemma_picks_within(shape: Seq<usize>, sels: Seq<Sel>, k: int)
    requires
        0 <= k <= shape.len(),
        picks_upto(shape, sels, k) is Ok,
    ensures
        ({
            let p = picks_upto(shape, sels, k)->Ok_0.0;
            &&& p.len() == k
            &&& forall|d: int| 0 <= d < k ==> (#[trigger] p[d]).len() <= shape[d]
            &&& forall|d: int, j: int| 0 <= d < k && 0 <= j < p[d].len() ==> 0 <= #[trigger] p[d][j] < shape[d]
        }),
    decreases k,
{
    if k > 0 {
        lemma_picks_within(shape, sels, k - 1);
        let sel = sel_at(sels, k - 1);
        let len = shape[k - 1] as int;
        if let Sel::Slice { start, stop, step } = sel {
            let st = match step {
                Some(v) => v as int,
                None => 1,
            };
            if st != 0 {
                lemma_slice_seq_within(start, stop, st, len);
            }
        }
    }
}

/// Basic indexing of a contiguous tensor of `shape` holding `data`: the key
/// is resolved to per-axis selections, each axis picks its indices (an
/// integer drops the axis, a slice keeps it, axes past the key are taken
/// whole), and the picked elements are gathered in row-major order.
/// Returns the elements and the shape of the result.
pub fn get_item<T: Copy>(data: &Vec<T>, shape: &Vec<usize>, key: &Key) -> (r: Result<(Vec<T>, Vec<usize>), IndexError>)
    requires
        shape@.len() >= 1,
        forall|d: int| 0 <= d < shape@.len() ==> shape@[d] <= isize::MAX,
        data@.len() == extent_product(ints(shape@), 0),
        forall|d: int| 1 <= d <= shape@.len() ==> #[trigger] extent_product(ints(shape@), d) <= usize::MAX,
    ensures
        match key_sels(*key, shape@.len() as int) {
            Err(e) => r matches Err(f) && f == e,
            Ok(sels) => match picks_upto(shape@, sels, shape@.len() as int) {
                Err(e) => r matches Err(f) && f == e,
                Ok((p, out)) => r matches Ok((v, o)) && {
                    &&& o@ == out
                    &&& v@.len() == picks_total(p, p.len() as int)
                    &&& forall|n: int| 0 <= n < v@.len() ==> v@[n] == data@[selection_offset(p, shape@, p.len() as int, n)]
                },
            },
        },
{
    let sels = parse_key(key, shape.len())?;
    let (dims, out_shape) = select_axes(shape, &sels)?;
    proof {
        let p = picks_upto(shape@, sels@, shape@.len() as int)->Ok_0.0;
        lemma_picks_within(shape@, sels@, shape@.len() as int);
        assert(dims@.map_values(|v: Vec<usize>| ints_of(v@)) =~= p);
    }
    let values = gather_selection(data, shape, &dims);
    Ok((values, out_shape))
}

// ---------------------------------------------------------------------------
// Device names

/// A device named by the user.
#[derive(Clone, Copy, Debug, PartialEq, Eq, Structural)]
pub enum DeviceSpec {
    Cpu,
    Cuda(u32),
}

/// Why a device name is refused; each variant holds the name.
#[derive(Clone, Debug)]
pub enum DeviceError {
    /// `cuda:` followed by something that is not a `u32`.
    InvalidCudaIndex(String),
    /// Neither `cpu`, `cuda` nor `cuda:N`.
    UnknownDevice(String),
}

pub open spec fn is_digit(c: char) -> bool {
    '0' <= c <= '9'
}

/// The value of a run of decimal digits.
pub open spec fn digits_value(s: Seq<char>) -> int
    decreases s.len(),
{
    if s.len() == 0 {
        0
    } else {
        digits_value(s.drop_last()) * 10 + (s.last() as int - '0' as int)
    }
}

/// The digits of an unsigned literal: past one leading `+`, if any.
pub open spec fn unsigned_body(s: Seq<char>) -> Seq<char> {
    if s.len() > 0 && s[0] == '+' {
        s.drop_first()
    } else {
        s
    }
}

pub open spec fn all_digits(s: Seq<char>) -> bool {
    forall|i: int| 0 <= i < s.len() ==> is_digit(#[trigger] s[i])
}

/// A `u32` spelled in decimal as the standard parser takes it: an optional
/// `+`, then at least one digit, with a value that fits.
pub open spec fn u32_text(s: Seq<char>) -> Option<u32> {
    let body = unsigned_body(s);
    if body.len() > 0 && all_digits(body) && digits_value(body) <= u32::MAX {
        Some(digits_value(body) as u32)
    } else {
        None
    }
}

/// The device a name denotes: `cpu`, `cuda` (device 0) or `cuda:N`.
pub open spec fn device_of(s: Seq<char>) -> Option<Result<DeviceSpec, ()>> {
    if s == "cpu"@ {
        Some(Ok(DeviceSpec::Cpu))
    } else if s.len() >= 4 && s.take(4) == "cuda"@ {
        let rest = s.skip(4);
        if rest.len() == 0 {
            Some(Ok(DeviceSpec::Cuda(0)))
        } else if rest[0] == ':' {
            match u32_text(rest.skip(1)) {
                Some(n) => Some(Ok(DeviceSpec::Cuda(n))),
                None => Some(Err(())),
            }
        } else {
            None
        }
    } else {
        None
    }
}

proof fn lemma_digits_value_nonneg(s: Seq<char>)
    requires
        forall|i: int| 0 <= i < s.len() ==> is_digit(#[trigger] s[i]),
    ensures
        digits_value(s) >= 0,
    decreases s.len(),
{
    if s.len() > 0 {
        lemma_digits_value_nonneg(s.drop_last());
    }
}

fn parse_u32_text(s: &[char]) -> (r: Option<u32>)
    ensures
        r == u32_text(s@),
{
    let mut k: usize = 0;
    if s.len() > 0 && s[0] == '+' {
        k = 1;
    }
    let ghost body = unsigned_body(s@);
    assert(body =~= s@.subrange(k as int, s@.len() as int));
    if k >= s.len() {
        return None;
    }
    let mut value: u64 = 0;
    let mut i: usize = k;
    while i < s.len()
        invariant
            k <= i <= s@.len(),
            body == s@.subrange(k as int, s@.len() as int),
            body == unsigned_body(s@),
            forall|q: int| k <= q < i ==> is_digit(#[trigger] s@[q]),
            value == digits_value(s@.subrange(k as int, i as int)),
            value <= u32::MAX,
        decreases s@.len() - i,
    {
        let c = s[i];
        if !('0' <= c && c <= '9') {
            assert(!is_digit(body[i - k]));
            return None;
        }
        let d = (c as u32 - '0' as u32) as u64;
        assert(s@.subrange(k as int, i + 1).drop_last() =~= s@.subrange(k as int, i as int));
        let next = value * 10 + d;
        if next > u32::MAX as u64 {
            proof {
                let sub = s@.subrange(k as int, i + 1);
                assert(digits_value(sub) > u32::MAX);
                if all_digits(body) {
                    lemma_digits_prefix_grows(body, i + 1 - k);
                    assert(body.take(i + 1 - k) =~= sub);
                }
            }
            return None;
        }
        value = next;
        i = i + 1;
    }
    assert(s@.subrange(k as int, i as int) =~= body);
    Some(value as u32)
}

/// A digit run's value is at least the value of any of its prefixes.
proof fn lemma_digits_prefix_grows(s: Seq<char>, j: int)
    requires
        0 <= j <= s.len(),
        forall|i: int| 0 <= i < s.len() ==> is_digit(#[trigger] s[i]),
    ensures
        digits_value(s.take(j)) <= digits_value(s),
    decreases s.len() - j,
{
    if j < s.len() {
        lemma_digits_prefix_grows(s.drop_last(), j);
        assert(s.drop_last().take(j) =~= s.take(j)) by {
            assert(j <= s.drop_last().len());
        }
        lemma_digits_value_nonneg(s.drop_last());
    } else {
        assert(s.take(j) =~= s);
    }
}

impl DeviceError {
    pub fn message(&self) -> (m: String)
        ensures
            m@ == match self {
                DeviceError::InvalidCudaIndex(s) => "invalid cuda device index in "@ + str_debug(s@),
                DeviceError::UnknownDevice(s) => "unknown device "@ + str_debug(s@) + "; expected 'cpu', 'cuda' or 'cuda:N'"@,
            },
    {
        match self {
            DeviceError::InvalidCudaIndex(s) => {
                let mut m = String::from_str("invalid cuda device index in ");
                let d = debug_str(s.as_str());
                m.append(d.as_str());
                m
            },
            DeviceError::UnknownDevice(s) => {
                let mut m = String::from_str("unknown device ");
                let d = debug_str(s.as_str());
                m.append(d.as_str());
                m.append("; expected 'cpu', 'cuda' or 'cuda:N'");
                m
            },
        }
    }
}

/// The device a name denotes: `cpu`, `cuda` (device 0) or `cuda:N` with
/// `N` a `u32`.
pub fn parse_device(s: &str) -> (r: Result<DeviceSpec, DeviceError>)
    ensures
        match device_of(s@) {
            Some(Ok(d)) => r matches Ok(x) && x == d,
            Some(Err(())) => r matches Err(DeviceError::InvalidCudaIndex(t)) && t@ == s@,
            None => r matches Err(DeviceError::UnknownDevice(t)) && t@ == s@,
        },
{
    let cs = chars_of(s);
    proof {
        reveal_strlit("cpu");
        reveal_strlit("cuda");
    }
    if cs.len() == 3 && cs[0] == 'c' && cs[1] == 'p' && cs[2] == 'u' {
        assert(cs@ =~= "cpu"@);
        return Ok(DeviceSpec::Cpu);
    }
    assert(cs@ != "cpu"@ || (cs.len() == 3 && cs[0] == 'c' && cs[1] == 'p' && cs[2] == 'u'));
    if cs.len() >= 4 && cs[0] == 'c' && cs[1] == 'u' && cs[2] == 'd' && cs[3] == 'a' {
        assert(cs@.take(4) =~= "cuda"@);
        if cs.len() == 4 {
            return Ok(DeviceSpec::Cuda(0));
        }
        if cs[4] == ':' {
            let mut rest: Vec<char> = Vec::new();
            let mut j: usize = 5;
            while j < cs.len()
                invariant
                    5 <= j <= cs@.len(),
                    rest@ == cs@.subrange(5, j as int),
                decreases cs@.len() - j,
            {
                rest.push(cs[j]);
                j = j + 1;
            }
            assert(rest@ =~= cs@.skip(4).skip(1));
            return match parse_u32_text(rest.as_slice()) {
                Some(n) => Ok(DeviceSpec::Cuda(n)),
                None => Err(DeviceError::InvalidCudaIndex(String::from_str(s))),
            };
        }
        return Err(DeviceError::UnknownDevice(String::from_str(s)));
    }
    proof {
        if cs@.len() >= 4 && cs@.take(4) == "cuda"@ {
            assert(cs@.take(4)[0] == 'c' && cs@.take(4)[1] == 'u' && cs@.take(4)[2] == 'd' && cs@.take(4)[3] == 'a');
        }
    }
    Err(DeviceError::UnknownDevice(String::from_str(s)))
}

} // verus!
