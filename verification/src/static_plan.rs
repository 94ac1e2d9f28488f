//! Validation and lowering of static CUDA graph plans: the checks that run
//! before anything is allocated, compiled or captured, and the mapping of
//! logical run slots onto owned device buffers and launch commands.

use vstd::prelude::*;
use crate::kernels::{ChainStep, chain_input_count, inputs_of, step_inputs, operands_bounded};

verus! {

/// Largest rank a materialized layout may have.
pub const MAX_LAYOUT_RANK: usize = 16;

/// One operation of a static model plan.
pub enum StaticOp {
    /// A fused pointwise chain over the run's inputs.
    Pointwise(Vec<ChainStep>),
    /// Row-major `(m,k) x (k,n)` product.
    MatMul { m: usize, k: usize, n: usize },
    /// Batched row-major product of contiguous slabs.
    Bmm { batch: usize, m: usize, k: usize, n: usize },
    /// A strided view of the input, copied to a contiguous run output.
    Layout { strides: Vec<usize> },
    /// A broadcast (possibly zero-strided) view of the input.
    Broadcast { strides: Vec<usize> },
    /// Row softmax over `rows` rows of `cols` columns.
    Softmax { rows: usize, cols: usize },
    /// Sum over the middle axis of an `(outer, red, inner)` view.
    Sum { red: usize, inner: usize },
    /// Row layer normalization with optional weight and bias inputs.
    LayerNorm { rows: usize, cols: usize, weight: bool, bias: bool },
}

/// One run of a static model: it reads the slots `inputs` and appends one
/// slot of shape `shape`.
pub struct StaticRun {
    pub inputs: Vec<usize>,
    pub op: StaticOp,
    pub shape: Vec<usize>,
}

/// Why a static plan was refused.
#[derive(Clone, Copy, Debug, PartialEq, Eq, Structural)]
pub enum PlanFault {
    EmptyModel,
    InvalidInputSlot,
    ShapeOverflow,
    ShapeStrideOverflow,
    InvalidPointwiseOperand,
    InvalidPointwiseRun,
    BroadcastOutOfBounds,
    UnsupportedBroadcast,
    InvalidMatmul,
    InvalidBmm,
    InvalidLayout,
    LayoutOutOfBounds,
    InvalidSoftmax,
    InvalidSum,
    InvalidNormalization,
    EmptyDag,
    InvalidDagInput,
    EmptyRun,
    InvalidDagOperand,
    ArityMismatch,
}

/// A refused plan: a structural fault, or an extent beyond the 32-bit
/// kernel argument range or the 32-bit signed cuBLAS range.
#[derive(Clone, Copy, Debug, PartialEq, Eq, Structural)]
pub enum PlanError {
    Rejected(PlanFault),
    ExceedsU32(usize),
    ExceedsI32(usize),
}

/// The message of each PlanFault.
pub open spec fn fault_message(x: PlanFault) -> Seq<char> {
    match x {
        PlanFault::EmptyModel => "empty static model"@,
        PlanFault::InvalidInputSlot => "invalid input slot"@,
        PlanFault::ShapeOverflow => "shape overflow"@,
        PlanFault::ShapeStrideOverflow => "shape stride overflow"@,
        PlanFault::InvalidPointwiseOperand => "invalid pointwise operand"@,
        PlanFault::InvalidPointwiseRun => "invalid pointwise run"@,
        PlanFault::BroadcastOutOfBounds => "broadcast out of bounds"@,
        PlanFault::UnsupportedBroadcast => "unsupported broadcast"@,
        PlanFault::InvalidMatmul => "invalid or empty static matmul"@,
        PlanFault::InvalidBmm => "invalid static bmm"@,
        PlanFault::InvalidLayout => "invalid static layout"@,
        PlanFault::LayoutOutOfBounds => "layout out of bounds"@,
        PlanFault::InvalidSoftmax => "invalid static softmax"@,
        PlanFault::InvalidSum => "invalid static sum"@,
        PlanFault::InvalidNormalization => "invalid static normalization"@,
        PlanFault::EmptyDag => "empty DAG"@,
        PlanFault::InvalidDagInput => "invalid DAG input or empty run"@,
        PlanFault::EmptyRun => "empty runs are not supported"@,
        PlanFault::InvalidDagOperand => "unsupported broadcast or invalid operand"@,
        PlanFault::ArityMismatch => "input arity differs from kernel signature"@,
    }
}

impl PlanFault {
    /// The message the plan is refused with.
    pub fn message(&self) -> (m: &'static str)
        ensures
            m@ == fault_message(*self),
    {
        match self {
            PlanFault::EmptyModel => "empty static model",
            PlanFault::InvalidInputSlot => "invalid input slot",
            PlanFault::ShapeOverflow => "shape overflow",
            PlanFault::ShapeStrideOverflow => "shape stride overflow",
            PlanFault::InvalidPointwiseOperand => "invalid pointwise operand",
            PlanFault::InvalidPointwiseRun => "invalid pointwise run",
            PlanFault::BroadcastOutOfBounds => "broadcast out of bounds",
            PlanFault::UnsupportedBroadcast => "unsupported broadcast",
            PlanFault::InvalidMatmul => "invalid or empty static matmul",
            PlanFault::InvalidBmm => "invalid static bmm",
            PlanFault::InvalidLayout => "invalid static layout",
            PlanFault::LayoutOutOfBounds => "layout out of bounds",
            PlanFault::InvalidSoftmax => "invalid static softmax",
            PlanFault::InvalidSum => "invalid static sum",
            PlanFault::InvalidNormalization => "invalid static normalization",
            PlanFault::EmptyDag => "empty DAG",
            PlanFault::InvalidDagInput => "invalid DAG input or empty run",
            PlanFault::EmptyRun => "empty runs are not supported",
            PlanFault::InvalidDagOperand => "unsupported broadcast or invalid operand",
            PlanFault::ArityMismatch => "input arity differs from kernel signature",
        }
    }
}

// ---------------------------------------------------------------------------
// Checked arithmetic over extents

/// The product of `s[..k]` folded from the left with a checked multiply:
/// `None` as soon as a partial product leaves the `usize` range.
pub open spec fn checked_product(s: Seq<int>, k: int) -> Option<int>
    decreases k,
{
    if k <= 0 {
        Some(1)
    } else {
        match checked_product(s, k - 1) {
            None => None,
            Some(a) => if a * s[k - 1] > usize::MAX {
                None
            } else {
                Some(a * s[k - 1])
            },
        }
    }
}

/// The largest offset `sum (dims[i] - 1) * strides[i]` over `i < k`, folded
/// with checked multiplies and adds.
pub open spec fn checked_span(dims: Seq<int>, strides: Seq<int>, k: int) -> Option<int>
    decreases k,
{
    if k <= 0 {
        Some(0)
    } else {
        match checked_span(dims, strides, k - 1) {
            None => None,
            Some(a) => {
                let t = (dims[k - 1] - 1) * strides[k - 1];
                if t > usize::MAX || a + t > usize::MAX {
                    None
                } else {
                    Some(a + t)
                }
            },
        }
    }
}

pub open spec fn ints(s: Seq<usize>) -> Seq<int> {
    s.map_values(|d: usize| d as int)
}

pub open spec fn ints32(s: Seq<u32>) -> Seq<int> {
    s.map_values(|d: u32| d as int)
}

/// Each extent with zero counted as one (the extents' stride multipliers).
pub open spec fn at_least_one(s: Seq<usize>) -> Seq<int> {
    s.map_values(|d: usize| if d == 0 { 1 } else { d as int })
}

/// The product of all of `s`, with checked multiplies.
pub open spec fn product_of(s: Seq<int>) -> Option<int> {
    checked_product(s, s.len() as int)
}

pub(crate) proof fn lemma_product_none_sticks(s: Seq<int>, j: int, k: int)
    requires
        0 <= j <= k,
        checked_product(s, j) is None,
    ensures
        checked_product(s, k) is None,
    decreases k - j,
{
    if j < k {
        lemma_product_none_sticks(s, j, k - 1);
    }
}

pub(crate) proof fn lemma_product_range(s: Seq<int>, k: int)
    requires
        forall|i: int| 0 <= i < s.len() ==> s[i] >= 0,
        0 <= k <= s.len(),
    ensures
        checked_product(s, k) matches Some(p) ==> 0 <= p <= usize::MAX,
    decreases k,
{
    if k > 0 {
        lemma_product_range(s, k - 1);
        if let Some(a) = checked_product(s, k - 1) {
            assert(a * s[k - 1] >= 0) by (nonlinear_arith)
                requires
                    a >= 0,
                    s[k - 1] >= 0,
            ;
        }
    }
}

/// A nonzero checked product has no zero factor.
pub(crate) proof fn lemma_product_nonzero(s: Seq<int>, k: int)
    requires
        0 <= k <= s.len(),
        checked_product(s, k) matches Some(p) && p != 0,
    ensures
        forall|i: int| 0 <= i < k ==> s[i] != 0,
    decreases k,
{
    if k > 0 {
        let a = checked_product(s, k - 1)->0;
        assert(a != 0 && s[k - 1] != 0) by (nonlinear_arith)
            requires
                a * s[k - 1] != 0,
        ;
        lemma_product_nonzero(s, k - 1);
    }
}

proof fn lemma_span_none_sticks(d: Seq<int>, st: Seq<int>, j: int, k: int)
    requires
        0 <= j <= k,
        checked_span(d, st, j) is None,
    ensures
        checked_span(d, st, k) is None,
    decreases k - j,
{
    if j < k {
        lemma_span_none_sticks(d, st, j, k - 1);
    }
}

/// `checked_product(ints(s))`, computed.
pub(crate) fn product_usize(s: &[usize]) -> (r: Option<usize>)
    ensures
        match r {
            Some(v) => product_of(ints(s@)) == Some(v as int),
            None => product_of(ints(s@)) is None,
        },
{
    let ghost si = ints(s@);
    let mut acc: usize = 1;
    let mut k: usize = 0;
    while k < s.len()
        invariant
            k <= s@.len(),
            si == ints(s@),
            checked_product(si, k as int) == Some(acc as int),
        decreases s@.len() - k,
    {
        match acc.checked_mul(s[k]) {
            Some(v) => {
                acc = v;
            },
            None => {
                proof {
                    lemma_product_none_sticks(si, k + 1, si.len() as int);
                }
                return None;
            },
        }
        k = k + 1;
    }
    Some(acc)
}

/// `checked_product(at_least_one(s))`, computed.
fn product_at_least_one(s: &[usize]) -> (r: Option<usize>)
    ensures
        match r {
            Some(v) => product_of(at_least_one(s@)) == Some(v as int),
            None => product_of(at_least_one(s@)) is None,
        },
{
    let ghost si = at_least_one(s@);
    let mut acc: usize = 1;
    let mut k: usize = 0;
    while k < s.len()
        invariant
            k <= s@.len(),
            si == at_least_one(s@),
            checked_product(si, k as int) == Some(acc as int),
        decreases s@.len() - k,
    {
        let d: usize = if s[k] == 0 { 1 } else { s[k] };
        match acc.checked_mul(d) {
            Some(v) => {
                acc = v;
            },
            None => {
                proof {
                    lemma_product_none_sticks(si, k + 1, si.len() as int);
                }
                return None;
            },
        }
        k = k + 1;
    }
    Some(acc)
}

/// `checked_product(ints32(s))`, computed.
fn product_u32(s: &[u32]) -> (r: Option<usize>)
    ensures
        match r {
            Some(v) => product_of(ints32(s@)) == Some(v as int),
            None => product_of(ints32(s@)) is None,
        },
{
    let ghost si = ints32(s@);
    let mut acc: usize = 1;
    let mut k: usize = 0;
    while k < s.len()
        invariant
            k <= s@.len(),
            si == ints32(s@),
            checked_product(si, k as int) == Some(acc as int),
        decreases s@.len() - k,
    {
        match acc.checked_mul(s[k] as usize) {
            Some(v) => {
                acc = v;
            },
            None => {
                proof {
                    lemma_product_none_sticks(si, k + 1, si.len() as int);
                }
                return None;
            },
        }
        k = k + 1;
    }
    Some(acc)
}

/// `checked_span(ints(dims), ints(strides))`, computed for extents that are all nonzero.
fn span_usize(dims: &[usize], strides: &[usize]) -> (r: Option<usize>)
    requires
        dims@.len() == strides@.len(),
        forall|i: int| 0 <= i < dims@.len() ==> dims@[i] != 0,
    ensures
        match r {
            Some(v) => checked_span(ints(dims@), ints(strides@), dims@.len() as int) == Some(v as int),
            None => checked_span(ints(dims@), ints(strides@), dims@.len() as int) is None,
        },
{
    let ghost di = ints(dims@);
    let ghost si = ints(strides@);
    let mut acc: usize = 0;
    let mut k: usize = 0;
    while k < dims.len()
        invariant
            k <= dims@.len() == strides@.len(),
            di == ints(dims@),
            si == ints(strides@),
            forall|i: int| 0 <= i < dims@.len() ==> dims@[i] != 0,
            checked_span(di, si, k as int) == Some(acc as int),
        decreases dims@.len() - k,
    {
        let d: usize = dims[k] - 1;
        match d.checked_mul(strides[k]) {
            Some(t) => match acc.checked_add(t) {
                Some(v) => {
                    acc = v;
                },
                None => {
                    proof {
                        lemma_span_none_sticks(di, si, k + 1, di.len() as int);
                    }
                    return None;
                },
            },
            None => {
                proof {
                    lemma_span_none_sticks(di, si, k + 1, di.len() as int);
                }
                return None;
            },
        }
        k = k + 1;
    }
    Some(acc)
}

/// `checked_span(ints32(dims), ints32(strides))`, computed for extents that are all nonzero.
fn span_u32(dims: &[u32], strides: &[u32]) -> (r: Option<usize>)
    requires
        dims@.len() == strides@.len(),
        forall|i: int| 0 <= i < dims@.len() ==> dims@[i] != 0,
    ensures
        match r {
            Some(v) => checked_span(ints32(dims@), ints32(strides@), dims@.len() as int) == Some(v as int),
            None => checked_span(ints32(dims@), ints32(strides@), dims@.len() as int) is None,
        },
{
    let ghost di = ints32(dims@);
    let ghost si = ints32(strides@);
    let mut acc: usize = 0;
    let mut k: usize = 0;
    while k < dims.len()
        invariant
            k <= dims@.len() == strides@.len(),
            di == ints32(dims@),
            si == ints32(strides@),
            forall|i: int| 0 <= i < dims@.len() ==> dims@[i] != 0,
            checked_span(di, si, k as int) == Some(acc as int),
        decreases dims@.len() - k,
    {
        let d: usize = (dims[k] - 1) as usize;
        match d.checked_mul(strides[k] as usize) {
            Some(t) => match acc.checked_add(t) {
                Some(v) => {
                    acc = v;
                },
                None => {
                    proof {
                        lemma_span_none_sticks(di, si, k + 1, di.len() as int);
                    }
                    return None;
                },
            },
            None => {
                proof {
                    lemma_span_none_sticks(di, si, k + 1, di.len() as int);
                }
                return None;
            },
        }
        k = k + 1;
    }
    Some(acc)
}

// ---------------------------------------------------------------------------
// Checks of one model run

/// The first extent of `s[k..]` beyond the 32-bit kernel argument range.
pub open spec fn first_wide(s: Seq<usize>, k: int) -> Option<usize>
    decreases s.len() - k,
{
    if k < 0 || k >= s.len() {
        None
    } else if s[k] > u32::MAX {
        Some(s[k])
    } else {
        first_wide(s, k + 1)
    }
}

/// The size of the slot that run input `j` names.
pub open spec fn input_size(sizes: Seq<usize>, inputs: Seq<usize>, j: int) -> int {
    sizes[inputs[j] as int] as int
}

/// Whether step `s` names an operand beyond the run's inputs.
pub open spec fn operand_out_of_range(inputs: Seq<usize>, s: ChainStep) -> bool {
    match s {
        ChainStep::Unary(_) => false,
        ChainStep::Binary { other, .. } => other >= inputs.len(),
        ChainStep::BinaryBc { other, .. } => other >= inputs.len(),
    }
}

/// The fault of one pointwise step over `n`-element runs, if any.
pub open spec fn step_fault(sizes: Seq<usize>, inputs: Seq<usize>, n: int, s: ChainStep) -> Option<PlanError> {
    match s {
        ChainStep::Unary(_) => None,
        ChainStep::Binary { other, .. } => if other < inputs.len() && input_size(sizes, inputs, other as int) == n {
            None
        } else {
            Some(PlanError::Rejected(PlanFault::UnsupportedBroadcast))
        },
        ChainStep::BinaryBc { other, dims, strides, .. } => if other < inputs.len() && dims@.len()
            == strides@.len() && product_of(ints32(dims@)) == Some(n) {
            if n == 0 {
                None
            } else {
                match checked_span(ints32(dims@), ints32(strides@), dims@.len() as int) {
                    Some(m) => if m < input_size(sizes, inputs, other as int) {
                        None
                    } else {
                        Some(PlanError::Rejected(PlanFault::BroadcastOutOfBounds))
                    },
                    None => Some(PlanError::Rejected(PlanFault::BroadcastOutOfBounds)),
                }
            }
        } else {
            Some(PlanError::Rejected(PlanFault::UnsupportedBroadcast))
        },
    }
}

/// The fault of the first faulty step of `steps[k..]`.
pub open spec fn steps_fault(sizes: Seq<usize>, inputs: Seq<usize>, n: int, steps: Seq<ChainStep>, k: int) -> Option<PlanError>
    decreases steps.len() - k,
{
    if k < 0 || k >= steps.len() {
        None
    } else {
        match step_fault(sizes, inputs, n, steps[k]) {
            Some(e) => Some(e),
            None => steps_fault(sizes, inputs, n, steps, k + 1),
        }
    }
}

pub open spec fn pointwise_fault(sizes: Seq<usize>, inputs: Seq<usize>, n: int, steps: Seq<ChainStep>) -> Option<PlanError> {
    if exists|k: int| 0 <= k < steps.len() && operand_out_of_range(inputs, #[trigger] steps[k]) {
        Some(PlanError::Rejected(PlanFault::InvalidPointwiseOperand))
    } else if steps.len() == 0 || inputs_of(steps, steps.len() as int) != inputs.len() || input_size(sizes, inputs, 0) != n {
        Some(PlanError::Rejected(PlanFault::InvalidPointwiseRun))
    } else {
        steps_fault(sizes, inputs, n, steps, 0)
    }
}

pub open spec fn max3(a: usize, b: usize, c: usize) -> usize {
    let ab = if a >= b { a } else { b };
    if ab >= c { ab } else { c }
}

pub open spec fn matmul_fault(sizes: Seq<usize>, inputs: Seq<usize>, n: int, m: usize, k: usize, cols: usize) -> Option<PlanError> {
    let big = max3(m, k, cols);
    if big > i32::MAX {
        Some(PlanError::ExceedsI32(big))
    } else if inputs.len() != 2 || m * k != input_size(sizes, inputs, 0) || k * cols != input_size(sizes, inputs, 1)
        || m * cols != n {
        Some(PlanError::Rejected(PlanFault::InvalidMatmul))
    } else {
        None
    }
}

/// `a * b * c == x` with the partial product `a * b` inside `usize`.
pub open spec fn product3_is(a: usize, b: usize, c: usize, x: int) -> bool {
    a * b <= usize::MAX && a * b * c == x
}

pub open spec fn bmm_fault(sizes: Seq<usize>, inputs: Seq<usize>, n: int, batch: usize, m: usize, k: usize, cols: usize) -> Option<PlanError> {
    let big = max3(max3(batch, m, k), cols, 0);
    if big > i32::MAX {
        Some(PlanError::ExceedsI32(big))
    } else if inputs.len() != 2 || !product3_is(batch, m, k, input_size(sizes, inputs, 0)) || !product3_is(
        batch,
        k,
        cols,
        input_size(sizes, inputs, 1),
    ) || !product3_is(batch, m, cols, n) {
        Some(PlanError::Rejected(PlanFault::InvalidBmm))
    } else {
        None
    }
}

pub open spec fn layout_fault(sizes: Seq<usize>, inputs: Seq<usize>, n: int, shape: Seq<usize>, strides: Seq<usize>, is_layout: bool) -> Option<PlanError> {
    if inputs.len() != 1 || strides.len() != shape.len() || strides.len() > MAX_LAYOUT_RANK || (is_layout && input_size(sizes, inputs, 0) != n) {
        Some(PlanError::Rejected(PlanFault::InvalidLayout))
    } else if n == 0 {
        None
    } else {
        match checked_span(ints(shape), ints(strides), shape.len() as int) {
            Some(m) => if m < input_size(sizes, inputs, 0) {
                None
            } else {
                Some(PlanError::Rejected(PlanFault::LayoutOutOfBounds))
            },
            None => Some(PlanError::Rejected(PlanFault::LayoutOutOfBounds)),
        }
    }
}

pub open spec fn softmax_fault(sizes: Seq<usize>, inputs: Seq<usize>, n: int, rows: usize, cols: usize) -> Option<PlanError> {
    if rows > u32::MAX {
        Some(PlanError::ExceedsU32(rows))
    } else if cols > u32::MAX {
        Some(PlanError::ExceedsU32(cols))
    } else if inputs.len() != 1 || rows * cols != n || input_size(sizes, inputs, 0) != n {
        Some(PlanError::Rejected(PlanFault::InvalidSoftmax))
    } else {
        None
    }
}

pub open spec fn sum_fault(sizes: Seq<usize>, inputs: Seq<usize>, n: int, red: usize, inner: usize) -> Option<PlanError> {
    if inputs.len() != 1 || n * red != input_size(sizes, inputs, 0) || (n != 0 && (inner == 0 || n % (inner as int) != 0)) {
        Some(PlanError::Rejected(PlanFault::InvalidSum))
    } else if red > u32::MAX {
        Some(PlanError::ExceedsU32(red))
    } else if inner > u32::MAX {
        Some(PlanError::ExceedsU32(inner))
    } else {
        None
    }
}

pub open spec fn layer_norm_fault(sizes: Seq<usize>, inputs: Seq<usize>, n: int, rows: usize, cols: usize, weight: bool, bias: bool) -> Option<PlanError> {
    if rows > u32::MAX {
        Some(PlanError::ExceedsU32(rows))
    } else if cols > u32::MAX {
        Some(PlanError::ExceedsU32(cols))
    } else if inputs.len() != 3 || rows * cols != n || input_size(sizes, inputs, 0) != n || cols == 0 || (weight
        && input_size(sizes, inputs, 1) != cols) || (bias && input_size(sizes, inputs, 2) != cols) {
        Some(PlanError::Rejected(PlanFault::InvalidNormalization))
    } else {
        None
    }
}

/// The fault of a run's operation, for a run whose output has `n` elements.
pub open spec fn op_fault(sizes: Seq<usize>, inputs: Seq<usize>, shape: Seq<usize>, n: int, op: StaticOp) -> Option<PlanError> {
    match op {
        StaticOp::Pointwise(steps) => pointwise_fault(sizes, inputs, n, steps@),
        StaticOp::MatMul { m, k, n: cols } => matmul_fault(sizes, inputs, n, m, k, cols),
        StaticOp::Bmm { batch, m, k, n: cols } => bmm_fault(sizes, inputs, n, batch, m, k, cols),
        StaticOp::Layout { strides } => layout_fault(sizes, inputs, n, shape, strides@, true),
        StaticOp::Broadcast { strides } => layout_fault(sizes, inputs, n, shape, strides@, false),
        StaticOp::Softmax { rows, cols } => softmax_fault(sizes, inputs, n, rows, cols),
        StaticOp::Sum { red, inner } => sum_fault(sizes, inputs, n, red, inner),
        StaticOp::LayerNorm { rows, cols, weight, bias } => layer_norm_fault(sizes, inputs, n, rows, cols, weight, bias),
    }
}

/// Whether every input of a run names an existing slot.
pub open spec fn inputs_in_range(sizes: Seq<usize>, inputs: Seq<usize>) -> bool {
    inputs.len() > 0 && forall|j: int| 0 <= j < inputs.len() ==> (#[trigger] inputs[j]) < sizes.len()
}

/// Checks one run against the sizes of the slots before it: its output
/// size, or why it is refused.
pub open spec fn run_check(sizes: Seq<usize>, run: StaticRun) -> Result<usize, PlanError> {
    let inputs = run.inputs@;
    let shape = run.shape@;
    if !inputs_in_range(sizes, inputs) {
        Err(PlanError::Rejected(PlanFault::InvalidInputSlot))
    } else {
        match product_of(ints(shape)) {
            None => Err(PlanError::Rejected(PlanFault::ShapeOverflow)),
            Some(n) => if n > u32::MAX {
                Err(PlanError::ExceedsU32(n as usize))
            } else {
                match first_wide(shape, 0) {
                    Some(e) => Err(PlanError::ExceedsU32(e)),
                    None => if product_of(at_least_one(shape)) is None {
                        Err(PlanError::Rejected(PlanFault::ShapeStrideOverflow))
                    } else {
                        match op_fault(sizes, inputs, shape, n, run.op) {
                            Some(e) => Err(e),
                            None => Ok(n as usize),
                        }
                    },
                }
            },
        }
    }
}

/// The sizes of all slots after the first `r` runs (leaves first), or the
/// first refusal.
pub open spec fn model_sizes(leaf_sizes: Seq<usize>, runs: Seq<StaticRun>, r: int) -> Result<Seq<usize>, PlanError>
    decreases r,
{
    if r <= 0 {
        Ok(leaf_sizes)
    } else {
        match model_sizes(leaf_sizes, runs, r - 1) {
            Err(e) => Err(e),
            Ok(s) => match run_check(s, runs[r - 1]) {
                Err(e) => Err(e),
                Ok(n) => Ok(s.push(n)),
            },
        }
    }
}

/// The whole check of a static model over leaves of the given sizes.
pub open spec fn model_check(leaf_sizes: Seq<usize>, runs: Seq<StaticRun>) -> Result<Seq<usize>, PlanError> {
    if runs.len() == 0 || leaf_sizes.len() == 0 {
        Err(PlanError::Rejected(PlanFault::EmptyModel))
    } else {
        model_sizes(leaf_sizes, runs, runs.len() as int)
    }
}

proof fn lemma_model_sizes_len(leaf_sizes: Seq<usize>, runs: Seq<StaticRun>, r: int)
    requires
        0 <= r,
    ensures
        model_sizes(leaf_sizes, runs, r) matches Ok(s) ==> s.len() == leaf_sizes.len() + r
            && s.subrange(0, leaf_sizes.len() as int) == leaf_sizes,
    decreases r,
{
    if r > 0 {
        lemma_model_sizes_len(leaf_sizes, runs, r - 1);
        if let Ok(s) = model_sizes(leaf_sizes, runs, r - 1) {
            if let Ok(n) = run_check(s, runs[r - 1]) {
                assert(s.push(n).subrange(0, leaf_sizes.len() as int) =~= s.subrange(0, leaf_sizes.len() as int));
            }
        }
    }
}

proof fn lemma_model_sizes_err_sticks(leaf_sizes: Seq<usize>, runs: Seq<StaticRun>, j: int, k: int)
    requires
        0 <= j <= k,
        model_sizes(leaf_sizes, runs, j) is Err,
    ensures
        model_sizes(leaf_sizes, runs, k) == model_sizes(leaf_sizes, runs, j),
    decreases k - j,
{
    if j < k {
        lemma_model_sizes_err_sticks(leaf_sizes, runs, j, k - 1);
    }
}

fn check_steps(sizes: &Vec<usize>, inputs: &Vec<usize>, n: usize, steps: &Vec<ChainStep>) -> (r: Option<PlanError>)
    requires
        inputs_in_range(sizes@, inputs@),
    ensures
        r == steps_fault(sizes@, inputs@, n as int, steps@, 0),
{
    let mut k: usize = steps.len();
    let mut found: Option<PlanError> = None;
    while k > 0
        invariant
            k <= steps@.len(),
            inputs_in_range(sizes@, inputs@),
            found == steps_fault(sizes@, inputs@, n as int, steps@, k as int),
        decreases k,
    {
        k = k - 1;
        let here: Option<PlanError> = match &steps[k] {
            ChainStep::Unary(_) => None,
            ChainStep::Binary { other, .. } => {
                if *other < inputs.len() && sizes[inputs[*other]] == n {
                    None
                } else {
                    Some(PlanError::Rejected(PlanFault::UnsupportedBroadcast))
                }
            },
            ChainStep::BinaryBc { other, dims, strides, .. } => {
                let prod_ok = match product_u32(dims.as_slice()) {
                    Some(p) => p == n,
                    None => false,
                };
                if *other < inputs.len() && dims.len() == strides.len() && prod_ok {
                    if n == 0 {
                        None
                    } else {
                        proof {
                            lemma_product_nonzero(ints32(dims@), dims@.len() as int);
                            assert forall|i: int| 0 <= i < dims@.len() implies dims@[i] != 0 by {
                                assert(ints32(dims@)[i] != 0);
                            }
                        }
                        match span_u32(dims.as_slice(), strides.as_slice()) {
                            Some(m) => if m < sizes[inputs[*other]] {
                                None
                            } else {
                                Some(PlanError::Rejected(PlanFault::BroadcastOutOfBounds))
                            },
                            None => Some(PlanError::Rejected(PlanFault::BroadcastOutOfBounds)),
                        }
                    }
                } else {
                    Some(PlanError::Rejected(PlanFault::UnsupportedBroadcast))
                }
            },
        };
        assert(here == step_fault(sizes@, inputs@, n as int, steps@[k as int]));
        if here.is_some() {
            found = here;
        }
    }
    found
}

fn check_pointwise(sizes: &Vec<usize>, inputs: &Vec<usize>, n: usize, steps: &Vec<ChainStep>) -> (r: Option<PlanError>)
    requires
        inputs_in_range(sizes@, inputs@),
    ensures
        r == pointwise_fault(sizes@, inputs@, n as int, steps@),
{
    let mut k: usize = 0;
    while k < steps.len()
        invariant
            k <= steps@.len(),
            forall|j: int| 0 <= j < k ==> !operand_out_of_range(inputs@, #[trigger] steps@[j]),
        decreases steps@.len() - k,
    {
        let bad = match &steps[k] {
            ChainStep::Unary(_) => false,
            ChainStep::Binary { other, .. } => *other >= inputs.len(),
            ChainStep::BinaryBc { other, .. } => *other >= inputs.len(),
        };
        if bad {
            assert(operand_out_of_range(inputs@, steps@[k as int]));
            return Some(PlanError::Rejected(PlanFault::InvalidPointwiseOperand));
        }
        k = k + 1;
    }
    let ilen = inputs.len();
    assert(operands_bounded(steps@)) by {
        assert forall|j: int| 0 <= j < steps@.len() implies step_inputs(#[trigger] steps@[j]) <= usize::MAX by {
            assert(!operand_out_of_range(inputs@, steps@[j]));
        }
    }
    if steps.len() == 0 || chain_input_count(steps.as_slice()) != inputs.len() || sizes[inputs[0]] != n {
        return Some(PlanError::Rejected(PlanFault::InvalidPointwiseRun));
    }
    check_steps(sizes, inputs, n, steps)
}

/// Whether `a * b == x`.
fn mul_is(a: usize, b: usize, x: usize) -> (r: bool)
    ensures
        r == (a * b == x),
{
    match a.checked_mul(b) {
        Some(v) => v == x,
        None => false,
    }
}

fn mul3_is(a: usize, b: usize, c: usize, x: usize) -> (r: bool)
    ensures
        r == product3_is(a, b, c, x as int),
{
    match a.checked_mul(b) {
        Some(v) => mul_is(v, c, x),
        None => false,
    }
}

fn max_of(a: usize, b: usize) -> (r: usize)
    ensures
        r == if a >= b { a } else { b },
{
    if a >= b { a } else { b }
}

fn check_matmul(sizes: &Vec<usize>, inputs: &Vec<usize>, n: usize, m: usize, k: usize, cols: usize) -> (r: Option<PlanError>)
    requires
        inputs_in_range(sizes@, inputs@),
    ensures
        r == matmul_fault(sizes@, inputs@, n as int, m, k, cols),
{
    let big = max_of(max_of(m, k), cols);
    if big > i32::MAX as usize {
        return Some(PlanError::ExceedsI32(big));
    }
    if inputs.len() != 2 || !mul_is(m, k, sizes[inputs[0]]) || !mul_is(k, cols, sizes[inputs[1]]) || !mul_is(m, cols, n) {
        return Some(PlanError::Rejected(PlanFault::InvalidMatmul));
    }
    None
}

fn check_bmm(sizes: &Vec<usize>, inputs: &Vec<usize>, n: usize, batch: usize, m: usize, k: usize, cols: usize) -> (r: Option<PlanError>)
    requires
        inputs_in_range(sizes@, inputs@),
    ensures
        r == bmm_fault(sizes@, inputs@, n as int, batch, m, k, cols),
{
    let big = max_of(max_of(max_of(max_of(batch, m), k), cols), 0);
    if big > i32::MAX as usize {
        return Some(PlanError::ExceedsI32(big));
    }
    if inputs.len() != 2 || !mul3_is(batch, m, k, sizes[inputs[0]]) || !mul3_is(batch, k, cols, sizes[inputs[1]])
        || !mul3_is(batch, m, cols, n) {
        return Some(PlanError::Rejected(PlanFault::InvalidBmm));
    }
    None
}

fn check_layout(sizes: &Vec<usize>, inputs: &Vec<usize>, n: usize, shape: &Vec<usize>, strides: &Vec<usize>, is_layout: bool) -> (r: Option<PlanError>)
    requires
        inputs_in_range(sizes@, inputs@),
        product_of(ints(shape@)) == Some(n as int),
    ensures
        r == layout_fault(sizes@, inputs@, n as int, shape@, strides@, is_layout),
{
    if inputs.len() != 1 || strides.len() != shape.len() || strides.len() > MAX_LAYOUT_RANK || (is_layout && sizes[inputs[0]] != n) {
        return Some(PlanError::Rejected(PlanFault::InvalidLayout));
    }
    if n == 0 {
        return None;
    }
    proof {
        lemma_product_nonzero(ints(shape@), shape@.len() as int);
        assert forall|i: int| 0 <= i < shape@.len() implies shape@[i] != 0 by {
            assert(ints(shape@)[i] != 0);
        }
    }
    match span_usize(shape.as_slice(), strides.as_slice()) {
        Some(m) => if m < sizes[inputs[0]] {
            None
        } else {
            Some(PlanError::Rejected(PlanFault::LayoutOutOfBounds))
        },
        None => Some(PlanError::Rejected(PlanFault::LayoutOutOfBounds)),
    }
}

fn check_softmax(sizes: &Vec<usize>, inputs: &Vec<usize>, n: usize, rows: usize, cols: usize) -> (r: Option<PlanError>)
    requires
        inputs_in_range(sizes@, inputs@),
    ensures
        r == softmax_fault(sizes@, inputs@, n as int, rows, cols),
{
    if rows > u32::MAX as usize {
        return Some(PlanError::ExceedsU32(rows));
    }
    if cols > u32::MAX as usize {
        return Some(PlanError::ExceedsU32(cols));
    }
    if inputs.len() != 1 || !mul_is(rows, cols, n) || sizes[inputs[0]] != n {
        return Some(PlanError::Rejected(PlanFault::InvalidSoftmax));
    }
    None
}

fn check_sum(sizes: &Vec<usize>, inputs: &Vec<usize>, n: usize, red: usize, inner: usize) -> (r: Option<PlanError>)
    requires
        inputs_in_range(sizes@, inputs@),
    ensures
        r == sum_fault(sizes@, inputs@, n as int, red, inner),
{
    if inputs.len() != 1 || !mul_is(n, red, sizes[inputs[0]]) || (n != 0 && (inner == 0 || n % inner != 0)) {
        return Some(PlanError::Rejected(PlanFault::InvalidSum));
    }
    if red > u32::MAX as usize {
        return Some(PlanError::ExceedsU32(red));
    }
    if inner > u32::MAX as usize {
        return Some(PlanError::ExceedsU32(inner));
    }
    None
}

fn check_layer_norm(sizes: &Vec<usize>, inputs: &Vec<usize>, n: usize, rows: usize, cols: usize, weight: bool, bias: bool) -> (r: Option<PlanError>)
    requires
        inputs_in_range(sizes@, inputs@),
    ensures
        r == layer_norm_fault(sizes@, inputs@, n as int, rows, cols, weight, bias),
{
    if rows > u32::MAX as usize {
        return Some(PlanError::ExceedsU32(rows));
    }
    if cols > u32::MAX as usize {
        return Some(PlanError::ExceedsU32(cols));
    }
    if inputs.len() != 3 || !mul_is(rows, cols, n) || sizes[inputs[0]] != n || cols == 0 || (weight && sizes[inputs[1]] != cols)
        || (bias && sizes[inputs[2]] != cols) {
        return Some(PlanError::Rejected(PlanFault::InvalidNormalization));
    }
    None
}

/// Checks one run of a static model against the sizes of the slots before
/// it, returning the size of the slot it appends.
pub fn check_run(sizes: &Vec<usize>, run: &StaticRun) -> (r: Result<usize, PlanError>)
    ensures
        r == run_check(sizes@, *run),
{
    let inputs = &run.inputs;
    let shape = &run.shape;
    if inputs.len() == 0 {
        return Err(PlanError::Rejected(PlanFault::InvalidInputSlot));
    }
    let mut j: usize = 0;
    while j < inputs.len()
        invariant
            j <= inputs@.len(),
            inputs@ == run.inputs@,
            forall|i: int| 0 <= i < j ==> (#[trigger] inputs@[i]) < sizes@.len(),
        decreases inputs@.len() - j,
    {
        if inputs[j] >= sizes.len() {
            assert(!inputs_in_range(sizes@, inputs@)) by {
                assert(inputs@[j as int] >= sizes@.len());
            }
            return Err(PlanError::Rejected(PlanFault::InvalidInputSlot));
        }
        j = j + 1;
    }
    let n = match product_usize(shape.as_slice()) {
        Some(n) => n,
        None => {
            return Err(PlanError::Rejected(PlanFault::ShapeOverflow));
        },
    };
    if n > u32::MAX as usize {
        return Err(PlanError::ExceedsU32(n));
    }
    let mut d: usize = 0;
    while d < shape.len()
        invariant
            d <= shape@.len(),
            shape@ == run.shape@,
            inputs_in_range(sizes@, run.inputs@),
            product_of(ints(shape@)) == Some(n as int),
            n <= u32::MAX,
            first_wide(shape@, 0) == first_wide(shape@, d as int),
        decreases shape@.len() - d,
    {
        if shape[d] > u32::MAX as usize {
            assert(first_wide(shape@, d as int) == Some(shape@[d as int]));
            return Err(PlanError::ExceedsU32(shape[d]));
        }
        d = d + 1;
    }
    if product_at_least_one(shape.as_slice()).is_none() {
        return Err(PlanError::Rejected(PlanFault::ShapeStrideOverflow));
    }
    let fault = match &run.op {
        StaticOp::Pointwise(steps) => check_pointwise(sizes, inputs, n, steps),
        StaticOp::MatMul { m, k, n: cols } => check_matmul(sizes, inputs, n, *m, *k, *cols),
        StaticOp::Bmm { batch, m, k, n: cols } => check_bmm(sizes, inputs, n, *batch, *m, *k, *cols),
        StaticOp::Layout { strides } => check_layout(sizes, inputs, n, shape, strides, true),
        StaticOp::Broadcast { strides } => check_layout(sizes, inputs, n, shape, strides, false),
        StaticOp::Softmax { rows, cols } => check_softmax(sizes, inputs, n, *rows, *cols),
        StaticOp::Sum { red, inner } => check_sum(sizes, inputs, n, *red, *inner),
        StaticOp::LayerNorm { rows, cols, weight, bias } => check_layer_norm(sizes, inputs, n, *rows, *cols, *weight, *bias),
    };
    match fault {
        Some(e) => Err(e),
        None => Ok(n),
    }
}

/// Checks a whole static model over leaves of the given sizes, before
/// anything is allocated: the sizes of all slots (leaves first, then one
/// per run), or the first refusal.
pub fn check_model(leaf_sizes: &Vec<usize>, runs: &Vec<StaticRun>) -> (r: Result<Vec<usize>, PlanError>)
    ensures
        match model_check(leaf_sizes@, runs@) {
            Ok(s) => r matches Ok(v) && v@ == s,
            Err(e) => r == Err::<Vec<usize>, PlanError>(e),
        },
{
    if runs.len() == 0 || leaf_sizes.len() == 0 {
        return Err(PlanError::Rejected(PlanFault::EmptyModel));
    }
    let mut sizes: Vec<usize> = leaf_sizes.clone();
    let mut r: usize = 0;
    while r < runs.len()
        invariant
            r <= runs@.len(),
            runs@.len() > 0,
            leaf_sizes@.len() > 0,
            model_sizes(leaf_sizes@, runs@, r as int) == Ok::<Seq<usize>, PlanError>(sizes@),
        decreases runs@.len() - r,
    {
        match check_run(&sizes, &runs[r]) {
            Ok(n) => {
                sizes.push(n);
            },
            Err(e) => {
                proof {
                    assert(model_sizes(leaf_sizes@, runs@, r + 1) == Err::<Seq<usize>, PlanError>(e));
                    lemma_model_sizes_err_sticks(leaf_sizes@, runs@, r + 1, runs@.len() as int);
                }
                return Err(e);
            },
        }
        r = r + 1;
    }
    Ok(sizes)
}

proof fn lemma_model_prefix(leaf_sizes: Seq<usize>, runs: Seq<StaticRun>, r: int, k: int)
    requires
        0 <= r <= k,
        model_sizes(leaf_sizes, runs, k) is Ok,
    ensures
        model_sizes(leaf_sizes, runs, r) is Ok,
        model_sizes(leaf_sizes, runs, r)->Ok_0 == model_sizes(leaf_sizes, runs, k)->Ok_0.subrange(0, leaf_sizes.len() + r),
    decreases k - r,
{
    lemma_model_sizes_len(leaf_sizes, runs, k);
    if r == k {
        let s = model_sizes(leaf_sizes, runs, k)->Ok_0;
        assert(s.subrange(0, leaf_sizes.len() + r) =~= s);
    } else {
        if model_sizes(leaf_sizes, runs, k - 1) is Err {
            assert(model_sizes(leaf_sizes, runs, k) is Err);
        }
        lemma_model_prefix(leaf_sizes, runs, r, k - 1);
        lemma_model_sizes_len(leaf_sizes, runs, k - 1);
        let t = model_sizes(leaf_sizes, runs, k - 1)->Ok_0;
        let s = model_sizes(leaf_sizes, runs, k)->Ok_0;
        assert(s.subrange(0, leaf_sizes.len() + r) =~= t.subrange(0, leaf_sizes.len() + r));
    }
}

/// Every run of an accepted model passes its own check against the slots before it.
proof fn lemma_run_accepted(leaf_sizes: Seq<usize>, runs: Seq<StaticRun>, sizes: Seq<usize>, r: int)
    requires
        model_check(leaf_sizes, runs) == Ok::<Seq<usize>, PlanError>(sizes),
        0 <= r < runs.len(),
    ensures
        sizes.len() == leaf_sizes.len() + runs.len(),
        run_check(sizes.subrange(0, leaf_sizes.len() + r), runs[r]) == Ok::<usize, PlanError>(sizes[leaf_sizes.len() + r]),
{
    let len = runs.len() as int;
    lemma_model_sizes_len(leaf_sizes, runs, len);
    lemma_model_prefix(leaf_sizes, runs, r + 1, len);
    lemma_model_prefix(leaf_sizes, runs, r, len);
    let t = model_sizes(leaf_sizes, runs, r)->Ok_0;
    let u = model_sizes(leaf_sizes, runs, r + 1)->Ok_0;
    assert(u[leaf_sizes.len() + r] == sizes[leaf_sizes.len() + r]);
}

// ---------------------------------------------------------------------------
// Slots, owned buffers and commands of an accepted model

/// Product of the extents `shape[d..]`.
pub open spec fn extent_product(s: Seq<int>, d: int) -> int
    decreases s.len() - d,
{
    if 0 <= d < s.len() {
        s[d] * extent_product(s, d + 1)
    } else {
        1
    }
}

/// Product of the extents `s[..k]`.
pub open spec fn prefix_product(s: Seq<int>, k: int) -> int
    decreases k,
{
    if k <= 0 {
        1
    } else {
        prefix_product(s, k - 1) * s[k - 1]
    }
}

/// Whether `strides` lay `shape` out contiguously in row-major order
/// (extents of one may carry any stride): such a layout reads its input as is.
pub open spec fn contiguous_layout(shape: Seq<usize>, strides: Seq<usize>) -> bool {
    forall|d: int| 0 <= d < shape.len() ==> shape[d] == 1 || (#[trigger] strides[d]) == extent_product(ints(shape), d + 1)
}

/// Whether run `r` is an interior contiguous layout: its slot aliases its
/// input instead of owning a buffer. The last run always owns its buffer.
pub open spec fn is_alias(runs: Seq<StaticRun>, r: int) -> bool {
    r + 1 < runs.len() && match runs[r].op {
        StaticOp::Layout { strides } => contiguous_layout(runs[r].shape@, strides@),
        _ => false,
    }
}

/// Number of runs in `runs[..r]` that own an output buffer.
pub open spec fn owned_before(runs: Seq<StaticRun>, r: int) -> int
    decreases r,
{
    if r <= 0 {
        0
    } else {
        owned_before(runs, r - 1) + if is_alias(runs, r - 1) { 0int } else { 1int }
    }
}

/// The device buffer behind logical slot `x`: leaves are buffers `0..leaves`,
/// the owned run outputs follow in run order, and an aliasing run shares
/// the buffer of its input.
pub open spec fn slot_of(leaves: int, runs: Seq<StaticRun>, x: int) -> int
    decreases x,
{
    if x < leaves || x - leaves >= runs.len() {
        x
    } else if is_alias(runs, x - leaves) {
        let src = runs[x - leaves].inputs@[0] as int;
        if src < x {
            slot_of(leaves, runs, src)
        } else {
            x
        }
    } else {
        leaves + owned_before(runs, x - leaves)
    }
}

/// Whether run `r` needs a row-statistics scratch buffer (a softmax that
/// launches).
pub open spec fn needs_scratch(leaves: int, runs: Seq<StaticRun>, sizes: Seq<usize>, r: int) -> bool {
    !is_alias(runs, r) && sizes[leaves + r] != 0 && runs[r].op is Softmax
}

/// Lengths of the owned output buffers of `runs[..r]`.
pub open spec fn owned_sizes(leaves: int, runs: Seq<StaticRun>, sizes: Seq<usize>, r: int) -> Seq<u64>
    decreases r,
{
    if r <= 0 {
        seq![]
    } else {
        owned_sizes(leaves, runs, sizes, r - 1) + if is_alias(runs, r - 1) {
            seq![]
        } else {
            seq![sizes[leaves + r - 1] as u64]
        }
    }
}

/// Lengths of the scratch buffers of `runs[..r]`: two floats per softmax row.
pub open spec fn scratch_sizes(leaves: int, runs: Seq<StaticRun>, sizes: Seq<usize>, r: int) -> Seq<u64>
    decreases r,
{
    if r <= 0 {
        seq![]
    } else {
        scratch_sizes(leaves, runs, sizes, r - 1) + match runs[r - 1].op {
            StaticOp::Softmax { rows, .. } => if needs_scratch(leaves, runs, sizes, r - 1) {
                seq![(2 * rows) as u64]
            } else {
                seq![]
            },
            _ => seq![],
        }
    }
}

/// One launch of a static model graph. Buffer operands are indices into
/// the graph's buffers: the leaves, then the owned buffers of the plan.
#[derive(Clone, Copy, Debug, PartialEq, Eq, Structural)]
pub enum ModelCommand {
    /// The fused chain kernel of pointwise run `run`; its inputs are the
    /// buffers behind that run's input slots.
    Chain { run: usize, out: usize, n: u32 },
    /// Fill `out` with zeros (a product with an empty inner extent).
    Fill { out: usize, n: u32 },
    /// Strided-batched row-major GEMM `out = a * b`.
    Gemm { a: usize, b: usize, out: usize, batch: i32, m: i32, k: i32, n: i32 },
    /// Materialize the layout of run `run` from `input` into `out`.
    Materialize { run: usize, input: usize, out: usize, n: u32 },
    /// Sum over the middle axis.
    SumDim { input: usize, out: usize, n: u32, red: u32, inner: u32 },
    /// Layer normalization of run `run`, one block per row.
    LayerNorm { run: usize, x: usize, weight: usize, bias: usize, out: usize, rows: u32, cols: u32 },
    /// Softmax pass one: per-row max and sum into `stats`, one block per row.
    SoftmaxStats { input: usize, stats: usize, rows: u32, cols: u32 },
    /// Softmax pass two: normalize every element with its row's stats.
    SoftmaxApply { input: usize, stats: usize, out: usize, n: u32, cols: u32 },
}

/// The commands of run `r`, given the buffer index of the first scratch buffer.
pub open spec fn run_commands(leaves: int, runs: Seq<StaticRun>, sizes: Seq<usize>, first_scratch: int, r: int) -> Seq<ModelCommand> {
    let run = runs[r];
    let n = sizes[leaves + r];
    let out = slot_of(leaves, runs, leaves + r) as usize;
    let arg = |j: int| slot_of(leaves, runs, run.inputs@[j] as int) as usize;
    if is_alias(runs, r) || n == 0 {
        seq![]
    } else {
        match run.op {
            StaticOp::Pointwise(_) => seq![ModelCommand::Chain { run: r as usize, out, n: n as u32 }],
            StaticOp::MatMul { m, k, n: cols } => if k == 0 {
                seq![ModelCommand::Fill { out, n: n as u32 }]
            } else {
                seq![ModelCommand::Gemm { a: arg(0), b: arg(1), out, batch: 1, m: m as i32, k: k as i32, n: cols as i32 }]
            },
            StaticOp::Bmm { batch, m, k, n: cols } => if k == 0 {
                seq![ModelCommand::Fill { out, n: n as u32 }]
            } else {
                seq![ModelCommand::Gemm { a: arg(0), b: arg(1), out, batch: batch as i32, m: m as i32, k: k as i32, n: cols as i32 }]
            },
            StaticOp::Layout { .. } => seq![ModelCommand::Materialize { run: r as usize, input: arg(0), out, n: n as u32 }],
            StaticOp::Broadcast { .. } => seq![ModelCommand::Materialize { run: r as usize, input: arg(0), out, n: n as u32 }],
            StaticOp::Sum { red, inner } => seq![ModelCommand::SumDim { input: arg(0), out, n: n as u32, red: red as u32, inner: inner as u32 }],
            StaticOp::LayerNorm { rows, cols, .. } => seq![ModelCommand::LayerNorm { run: r as usize, x: arg(0), weight: arg(1), bias: arg(2), out, rows: rows as u32, cols: cols as u32 }],
            StaticOp::Softmax { rows, cols } => {
                let stats = (first_scratch + scratch_sizes(leaves, runs, sizes, r).len()) as usize;
                seq![
                    ModelCommand::SoftmaxStats { input: arg(0), stats, rows: rows as u32, cols: cols as u32 },
                    ModelCommand::SoftmaxApply { input: arg(0), stats, out, n: n as u32, cols: cols as u32 },
                ]
            },
        }
    }
}

/// The commands of `runs[..r]`, in order.
pub open spec fn commands_upto(leaves: int, runs: Seq<StaticRun>, sizes: Seq<usize>, first_scratch: int, r: int) -> Seq<ModelCommand>
    decreases r,
{
    if r <= 0 {
        seq![]
    } else {
        commands_upto(leaves, runs, sizes, first_scratch, r - 1) + run_commands(leaves, runs, sizes, first_scratch, r - 1)
    }
}

pub(crate) proof fn lemma_checked_is_prefix(s: Seq<int>, k: int)
    requires
        0 <= k <= s.len(),
        checked_product(s, k) is Some,
    ensures
        checked_product(s, k) == Some(prefix_product(s, k)),
    decreases k,
{
    if k > 0 {
        lemma_checked_is_prefix(s, k - 1);
    }
}

pub(crate) proof fn lemma_prefix_suffix(s: Seq<int>, k: int)
    requires
        0 <= k <= s.len(),
    ensures
        prefix_product(s, k) * extent_product(s, k) == extent_product(s, 0),
    decreases k,
{
    if k > 0 {
        lemma_prefix_suffix(s, k - 1);
        let a = prefix_product(s, k - 1);
        let b = s[k - 1];
        let c = extent_product(s, k);
        assert(extent_product(s, k - 1) == b * c);
        assert((a * b) * c == a * (b * c)) by (nonlinear_arith);
    }
}

pub(crate) proof fn lemma_prefix_positive(s: Seq<int>, k: int)
    requires
        0 <= k <= s.len(),
        forall|i: int| 0 <= i < s.len() ==> s[i] >= 1,
    ensures
        prefix_product(s, k) >= 1,
    decreases k,
{
    if k > 0 {
        lemma_prefix_positive(s, k - 1);
        let a = prefix_product(s, k - 1);
        let b = s[k - 1];
        assert(a * b >= 1) by (nonlinear_arith)
            requires
                a >= 1,
                b >= 1,
        ;
    }
}

proof fn lemma_extent_below(shape: Seq<usize>, d: int)
    requires
        0 <= d <= shape.len(),
    ensures
        0 <= extent_product(ints(shape), d) <= extent_product(at_least_one(shape), d),
        1 <= extent_product(at_least_one(shape), d),
    decreases shape.len() - d,
{
    if d < shape.len() {
        lemma_extent_below(shape, d + 1);
        let a = ints(shape)[d];
        let b = at_least_one(shape)[d];
        let x = extent_product(ints(shape), d + 1);
        let y = extent_product(at_least_one(shape), d + 1);
        assert(0 <= a * x <= b * y && 1 <= b * y) by (nonlinear_arith)
            requires
                0 <= a <= b,
                1 <= b,
                0 <= x <= y,
                1 <= y,
        ;
    }
}

/// Every suffix product of a shape whose stride multipliers fit in `usize` fits too.
proof fn lemma_extent_fits(shape: Seq<usize>, d: int)
    requires
        0 <= d <= shape.len(),
        product_of(at_least_one(shape)) is Some,
    ensures
        0 <= extent_product(ints(shape), d) <= usize::MAX,
{
    let t = at_least_one(shape);
    lemma_checked_is_prefix(t, t.len() as int);
    lemma_product_range(t, t.len() as int);
    lemma_prefix_suffix(t, t.len() as int);
    lemma_prefix_suffix(t, d);
    lemma_prefix_positive(t, d);
    lemma_extent_below(shape, d);
    assert(extent_product(t, t.len() as int) == 1);
    let p = prefix_product(t, d);
    let e = extent_product(t, d);
    assert(e <= p * e) by (nonlinear_arith)
        requires
            p >= 1,
            e >= 1,
    ;
}

/// Whether `strides` lay out `shape` contiguously (see [`contiguous_layout`]).
fn contiguous(shape: &Vec<usize>, strides: &Vec<usize>) -> (b: bool)
    requires
        strides@.len() == shape@.len(),
        product_of(at_least_one(shape@)) is Some,
    ensures
        b == contiguous_layout(shape@, strides@),
{
    let mut d: usize = shape.len();
    let mut stride: usize = 1;
    while d > 0
        invariant
            d <= shape@.len() == strides@.len(),
            product_of(at_least_one(shape@)) is Some,
            stride as int == extent_product(ints(shape@), d as int),
            forall|e: int| d <= e < shape@.len() ==> shape@[e] == 1 || (#[trigger] strides@[e]) == extent_product(ints(shape@), e + 1),
        decreases d,
    {
        d = d - 1;
        if !(shape[d] == 1 || strides[d] == stride) {
            assert(!(shape@[d as int] == 1 || strides@[d as int] == extent_product(ints(shape@), d + 1)));
            return false;
        }
        proof {
            lemma_extent_fits(shape@, d as int);
            assert(extent_product(ints(shape@), d as int) == shape@[d as int] * extent_product(ints(shape@), d + 1));
        }
        stride = shape[d] * stride;
    }
    true
}

/// The slots, alias flags and owned buffer lengths of an accepted model.
fn assign_slots(leaf_sizes: &Vec<usize>, runs: &Vec<StaticRun>, sizes: &Vec<usize>) -> (res: (Vec<usize>, Vec<bool>, Vec<u64>))
    requires
        model_check(leaf_sizes@, runs@) == Ok::<Seq<usize>, PlanError>(sizes@),
    ensures
        res.0@.len() == leaf_sizes@.len() + runs@.len(),
        forall|x: int| 0 <= x < res.0@.len() ==> res.0@[x] == slot_of(leaf_sizes@.len() as int, runs@, x),
        res.1@.len() == runs@.len(),
        forall|r: int| 0 <= r < runs@.len() ==> res.1@[r] == is_alias(runs@, r),
        res.2@ == owned_sizes(leaf_sizes@.len() as int, runs@, sizes@, runs@.len() as int),
        res.2@.len() == owned_before(runs@, runs@.len() as int),
        res.2@.len() <= runs@.len(),
{
    let leaves = leaf_sizes.len();
    let ghost lv = leaves as int;
    proof {
        lemma_model_sizes_len(leaf_sizes@, runs@, runs@.len() as int);
    }
    let mut slots: Vec<usize> = Vec::new();
    let mut i: usize = 0;
    while i < leaves
        invariant
            i <= leaves == leaf_sizes@.len(),
            slots@.len() == i,
            forall|x: int| 0 <= x < i ==> slots@[x] == x,
        decreases leaves - i,
    {
        slots.push(i);
        i = i + 1;
    }
    let total = sizes.len();
    let mut aliases: Vec<bool> = Vec::new();
    let mut owned: Vec<u64> = Vec::new();
    let mut r: usize = 0;
    while r < runs.len()
        invariant
            leaves == leaf_sizes@.len(),
            lv == leaves,
            model_check(leaf_sizes@, runs@) == Ok::<Seq<usize>, PlanError>(sizes@),
            sizes@.len() == leaves + runs@.len(),
            total == sizes@.len(),
            r <= runs@.len(),
            owned@.len() <= r,
            slots@.len() == leaves + r,
            forall|x: int| 0 <= x < leaves + r ==> slots@[x] == slot_of(lv, runs@, x),
            aliases@.len() == r,
            forall|q: int| 0 <= q < r ==> aliases@[q] == is_alias(runs@, q),
            owned@ == owned_sizes(lv, runs@, sizes@, r as int),
            owned@.len() == owned_before(runs@, r as int),
        decreases runs@.len() - r,
    {
        proof {
            lemma_run_accepted(leaf_sizes@, runs@, sizes@, r as int);
        }
        let run = &runs[r];
        let ghost before = sizes@.subrange(0, lv + r);
        assert(inputs_in_range(before, run.inputs@));
        let alias = r + 1 < runs.len() && match &run.op {
            StaticOp::Layout { strides } => contiguous(&run.shape, strides),
            _ => false,
        };
        assert(alias == is_alias(runs@, r as int));
        if alias {
            let src = run.inputs[0];
            assert(src < leaves + r);
            slots.push(slots[src]);
        } else {
            slots.push(leaves + owned.len());
            owned.push(sizes[leaves + r] as u64);
        }
        aliases.push(alias);
        proof {
            assert(slots@[lv + r] == slot_of(lv, runs@, lv + r));
        }
        r = r + 1;
    }
    (slots, aliases, owned)
}

/// The commands and scratch buffer lengths of an accepted model.
fn lower_commands(
    leaf_sizes: &Vec<usize>,
    runs: &Vec<StaticRun>,
    sizes: &Vec<usize>,
    slots: &Vec<usize>,
    aliases: &Vec<bool>,
    first_scratch: usize,
) -> (res: (Vec<ModelCommand>, Vec<u64>))
    requires
        model_check(leaf_sizes@, runs@) == Ok::<Seq<usize>, PlanError>(sizes@),
        slots@.len() == leaf_sizes@.len() + runs@.len(),
        forall|x: int| 0 <= x < slots@.len() ==> slots@[x] == slot_of(leaf_sizes@.len() as int, runs@, x),
        aliases@.len() == runs@.len(),
        forall|r: int| 0 <= r < runs@.len() ==> aliases@[r] == is_alias(runs@, r),
        first_scratch + runs@.len() <= usize::MAX,
    ensures
        res.0@ == commands_upto(leaf_sizes@.len() as int, runs@, sizes@, first_scratch as int, runs@.len() as int),
        res.1@ == scratch_sizes(leaf_sizes@.len() as int, runs@, sizes@, runs@.len() as int),
{
    let leaves = leaf_sizes.len();
    let ghost lv = leaves as int;
    let ghost fs = first_scratch as int;
    proof {
        lemma_model_sizes_len(leaf_sizes@, runs@, runs@.len() as int);
    }
    let total = sizes.len();
    let mut commands: Vec<ModelCommand> = Vec::new();
    let mut scratch: Vec<u64> = Vec::new();
    let mut r: usize = 0;
    while r < runs.len()
        invariant
            leaves == leaf_sizes@.len(),
            lv == leaves,
            fs == first_scratch,
            first_scratch + runs@.len() <= usize::MAX,
            model_check(leaf_sizes@, runs@) == Ok::<Seq<usize>, PlanError>(sizes@),
            sizes@.len() == leaves + runs@.len(),
            total == sizes@.len(),
            slots@.len() == leaves + runs@.len(),
            forall|x: int| 0 <= x < slots@.len() ==> slots@[x] == slot_of(lv, runs@, x),
            aliases@.len() == runs@.len(),
            forall|q: int| 0 <= q < runs@.len() ==> aliases@[q] == is_alias(runs@, q),
            r <= runs@.len(),
            scratch@.len() <= r,
            commands@ == commands_upto(lv, runs@, sizes@, fs, r as int),
            scratch@ == scratch_sizes(lv, runs@, sizes@, r as int),
        decreases runs@.len() - r,
    {
        proof {
            lemma_run_accepted(leaf_sizes@, runs@, sizes@, r as int);
        }
        let run = &runs[r];
        let ghost before = sizes@.subrange(0, lv + r);
        assert(inputs_in_range(before, run.inputs@));
        let ghost want = run_commands(lv, runs@, sizes@, fs, r as int);
        let n = sizes[leaves + r];
        if !aliases[r] && n != 0 {
            let out = slots[leaves + r];
            let n32 = n as u32;
            match &run.op {
                StaticOp::Pointwise(_) => {
                    commands.push(ModelCommand::Chain { run: r, out, n: n32 });
                },
                StaticOp::MatMul { m, k, n: cols } => {
                    if *k == 0 {
                        commands.push(ModelCommand::Fill { out, n: n32 });
                    } else {
                        let a = slots[run.inputs[0]];
                        let b = slots[run.inputs[1]];
                        commands.push(ModelCommand::Gemm { a, b, out, batch: 1, m: *m as i32, k: *k as i32, n: *cols as i32 });
                    }
                },
                StaticOp::Bmm { batch, m, k, n: cols } => {
                    if *k == 0 {
                        commands.push(ModelCommand::Fill { out, n: n32 });
                    } else {
                        let a = slots[run.inputs[0]];
                        let b = slots[run.inputs[1]];
                        commands.push(ModelCommand::Gemm { a, b, out, batch: *batch as i32, m: *m as i32, k: *k as i32, n: *cols as i32 });
                    }
                },
                StaticOp::Layout { .. } => {
                    let input = slots[run.inputs[0]];
                    commands.push(ModelCommand::Materialize { run: r, input, out, n: n32 });
                },
                StaticOp::Broadcast { .. } => {
                    let input = slots[run.inputs[0]];
                    commands.push(ModelCommand::Materialize { run: r, input, out, n: n32 });
                },
                StaticOp::Sum { red, inner } => {
                    let input = slots[run.inputs[0]];
                    commands.push(ModelCommand::SumDim { input, out, n: n32, red: *red as u32, inner: *inner as u32 });
                },
                StaticOp::LayerNorm { rows, cols, .. } => {
                    let x = slots[run.inputs[0]];
                    let weight = slots[run.inputs[1]];
                    let bias = slots[run.inputs[2]];
                    commands.push(ModelCommand::LayerNorm { run: r, x, weight, bias, out, rows: *rows as u32, cols: *cols as u32 });
                },
                StaticOp::Softmax { rows, cols } => {
                    let input = slots[run.inputs[0]];
                    let stats = first_scratch + scratch.len();
                    scratch.push((*rows as u64) * 2);
                    commands.push(ModelCommand::SoftmaxStats { input, stats, rows: *rows as u32, cols: *cols as u32 });
                    commands.push(ModelCommand::SoftmaxApply { input, stats, out, n: n32, cols: *cols as u32 });
                },
            }
        }
        proof {
            assert(commands@ =~= commands_upto(lv, runs@, sizes@, fs, r as int) + want);
            assert(scratch@ =~= scratch_sizes(lv, runs@, sizes@, r as int + 1));
        }
        r = r + 1;
    }
    (commands, scratch)
}

/// The lowering of an accepted static model onto device buffers and launches.
pub struct ModelPlan {
    /// Element count of every logical slot: the leaves, then one per run.
    pub sizes: Vec<usize>,
    /// The buffer behind every logical slot (see [`slot_of`]).
    pub slots: Vec<usize>,
    /// Lengths of the buffers the graph owns, in allocation order: one per
    /// non-aliasing run, then the softmax scratch buffers. Owned buffer `j`
    /// is buffer `leaves + j` of the graph.
    pub buffers: Vec<u64>,
    /// The owned buffer that holds the public output.
    pub output: usize,
    /// The launches of one replay, in order.
    pub commands: Vec<ModelCommand>,
}

/// Validates a static model over leaves of the given sizes and lowers it
/// onto owned buffers and launches. Interior contiguous layouts alias their
/// input; every other run owns a buffer; runs with no elements launch
/// nothing; a product with an empty inner extent fills zeros; a softmax
/// takes a stats scratch buffer and two launches.
pub fn plan_model(leaf_sizes: &Vec<usize>, runs: &Vec<StaticRun>) -> (r: Result<ModelPlan, PlanError>)
    requires
        leaf_sizes@.len() + 2 * runs@.len() <= usize::MAX,
    ensures
        match model_check(leaf_sizes@, runs@) {
            Err(e) => r matches Err(f) && f == e,
            Ok(sizes) => r matches Ok(p) && {
                let lv = leaf_sizes@.len() as int;
                let total = runs@.len() as int;
                &&& p.sizes@ == sizes
                &&& p.slots@.len() == lv + total
                &&& forall|x: int| 0 <= x < lv + total ==> p.slots@[x] == slot_of(lv, runs@, x)
                &&& p.buffers@ == owned_sizes(lv, runs@, sizes, total) + scratch_sizes(lv, runs@, sizes, total)
                &&& p.output == slot_of(lv, runs@, lv + total - 1) - lv
                &&& p.commands@ == commands_upto(lv, runs@, sizes, lv + owned_before(runs@, total), total)
            },
        },
{
    let sizes = match check_model(leaf_sizes, runs) {
        Ok(s) => s,
        Err(e) => {
            return Err(e);
        },
    };
    let (slots, aliases, owned) = assign_slots(leaf_sizes, runs, &sizes);
    let leaves = leaf_sizes.len();
    let last = leaves + runs.len() - 1;
    assert(!is_alias(runs@, runs@.len() - 1));
    let output = slots[last] - leaves;
    let first_scratch = leaves + owned.len();
    let (commands, scratch) = lower_commands(leaf_sizes, runs, &sizes, &slots, &aliases, first_scratch);
    let mut buffers = owned;
    let mut extra = scratch;
    buffers.append(&mut extra);
    Ok(ModelPlan { sizes, slots, buffers, output, commands })
}

proof fn lemma_owned_before_grows(runs: Seq<StaticRun>, a: int, b: int)
    requires
        0 <= a <= b,
    ensures
        0 <= owned_before(runs, a) <= owned_before(runs, b),
    decreases b,
{
    if b > a {
        lemma_owned_before_grows(runs, a, b - 1);
    } else if a > 0 {
        lemma_owned_before_grows(runs, 0, a - 1);
    }
}

proof fn lemma_owned_sizes_len(leaves: int, runs: Seq<StaticRun>, sizes: Seq<usize>, r: int)
    requires
        0 <= r,
    ensures
        owned_sizes(leaves, runs, sizes, r).len() == owned_before(runs, r),
    decreases r,
{
    if r > 0 {
        lemma_owned_sizes_len(leaves, runs, sizes, r - 1);
    }
}

proof fn lemma_slot_bound(leaf_sizes: Seq<usize>, runs: Seq<StaticRun>, x: int)
    requires
        model_check(leaf_sizes, runs) is Ok,
        0 <= x < leaf_sizes.len() + runs.len(),
    ensures
        0 <= slot_of(leaf_sizes.len() as int, runs, x) < leaf_sizes.len() + owned_before(runs, runs.len() as int),
    decreases x,
{
    let lv = leaf_sizes.len() as int;
    let total = runs.len() as int;
    lemma_owned_before_grows(runs, 0, total);
    if x >= lv {
        let r = x - lv;
        if is_alias(runs, r) {
            let sizes = model_check(leaf_sizes, runs)->Ok_0;
            lemma_run_accepted(leaf_sizes, runs, sizes, r);
            let before = sizes.subrange(0, lv + r);
            assert(inputs_in_range(before, runs[r].inputs@));
            assert(runs[r].inputs@[0] < x);
            lemma_slot_bound(leaf_sizes, runs, runs[r].inputs@[0] as int);
        } else {
            lemma_owned_before_grows(runs, r + 1, total);
        }
    }
}

/// Buffer law: in an accepted model every logical slot resolves to a buffer
/// that exists. A leaf slot is its own buffer, every other slot resolves to a
/// leaf or to one of the owned run outputs (whose lengths open the plan's
/// buffer list), and the model's output slot is owned by its last run, which
/// never aliases its input.
pub proof fn law_slots_resolve_to_buffers(leaf_sizes: Seq<usize>, runs: Seq<StaticRun>, x: int)
    requires
        model_check(leaf_sizes, runs) is Ok,
        0 <= x < leaf_sizes.len() + runs.len(),
    ensures
        x < leaf_sizes.len() ==> slot_of(leaf_sizes.len() as int, runs, x) == x,
        0 <= slot_of(leaf_sizes.len() as int, runs, x) < leaf_sizes.len() + owned_before(runs, runs.len() as int),
        owned_sizes(leaf_sizes.len() as int, runs, model_check(leaf_sizes, runs)->Ok_0, runs.len() as int).len()
            == owned_before(runs, runs.len() as int),
        !is_alias(runs, runs.len() - 1),
        slot_of(leaf_sizes.len() as int, runs, leaf_sizes.len() + runs.len() - 1)
            == leaf_sizes.len() + owned_before(runs, runs.len() as int) - 1,
{
    let lv = leaf_sizes.len() as int;
    let total = runs.len() as int;
    lemma_slot_bound(leaf_sizes, runs, x);
    lemma_owned_sizes_len(lv, runs, model_check(leaf_sizes, runs)->Ok_0, total);
    assert(owned_before(runs, total) == owned_before(runs, total - 1) + 1);
}

// ---------------------------------------------------------------------------
// Pointwise DAGs

/// One run of a pointwise DAG: slots `0..leaves` are the leaves and each
/// run appends one output slot of the same size as its first input.
pub struct StaticPointwiseRun {
    pub inputs: Vec<usize>,
    pub steps: Vec<ChainStep>,
}

/// Whether a step is supported by a pointwise DAG run over `n` elements:
/// unary steps, and binary steps whose operand has exactly `n` elements.
pub open spec fn dag_step_ok(sizes: Seq<usize>, inputs: Seq<usize>, n: int, s: ChainStep) -> bool {
    match s {
        ChainStep::Unary(_) => true,
        ChainStep::Binary { other, .. } => other < inputs.len() && input_size(sizes, inputs, other as int) == n,
        ChainStep::BinaryBc { .. } => false,
    }
}

/// Checks one DAG run against the sizes of the slots before it: its output
/// size, or why it is refused.
pub open spec fn dag_run_check(sizes: Seq<usize>, run: StaticPointwiseRun) -> Result<usize, PlanError> {
    let inputs = run.inputs@;
    let steps = run.steps@;
    if !inputs_in_range(sizes, inputs) || steps.len() == 0 {
        Err(PlanError::Rejected(PlanFault::InvalidDagInput))
    } else {
        let n = sizes[inputs[0] as int];
        if n > u32::MAX {
            Err(PlanError::ExceedsU32(n))
        } else if n == 0 {
            Err(PlanError::Rejected(PlanFault::EmptyRun))
        } else if exists|k: int| 0 <= k < steps.len() && !dag_step_ok(sizes, inputs, n as int, #[trigger] steps[k]) {
            Err(PlanError::Rejected(PlanFault::InvalidDagOperand))
        } else if inputs_of(steps, steps.len() as int) != inputs.len() {
            Err(PlanError::Rejected(PlanFault::ArityMismatch))
        } else {
            Ok(n)
        }
    }
}

/// The sizes of all slots after the first `r` DAG runs, or the first refusal.
pub open spec fn dag_sizes(leaf_sizes: Seq<usize>, runs: Seq<StaticPointwiseRun>, r: int) -> Result<Seq<usize>, PlanError>
    decreases r,
{
    if r <= 0 {
        Ok(leaf_sizes)
    } else {
        match dag_sizes(leaf_sizes, runs, r - 1) {
            Err(e) => Err(e),
            Ok(s) => match dag_run_check(s, runs[r - 1]) {
                Err(e) => Err(e),
                Ok(n) => Ok(s.push(n)),
            },
        }
    }
}

/// The whole check of a pointwise DAG over leaves of the given sizes.
pub open spec fn dag_check(leaf_sizes: Seq<usize>, runs: Seq<StaticPointwiseRun>) -> Result<Seq<usize>, PlanError> {
    if leaf_sizes.len() == 0 || runs.len() == 0 {
        Err(PlanError::Rejected(PlanFault::EmptyDag))
    } else {
        dag_sizes(leaf_sizes, runs, runs.len() as int)
    }
}

proof fn lemma_dag_sizes_err_sticks(leaf_sizes: Seq<usize>, runs: Seq<StaticPointwiseRun>, j: int, k: int)
    requires
        0 <= j <= k,
        dag_sizes(leaf_sizes, runs, j) is Err,
    ensures
        dag_sizes(leaf_sizes, runs, k) == dag_sizes(leaf_sizes, runs, j),
    decreases k - j,
{
    if j < k {
        lemma_dag_sizes_err_sticks(leaf_sizes, runs, j, k - 1);
    }
}

fn check_dag_run(sizes: &Vec<usize>, run: &StaticPointwiseRun) -> (r: Result<usize, PlanError>)
    ensures
        r == dag_run_check(sizes@, *run),
{
    let inputs = &run.inputs;
    let steps = &run.steps;
    if inputs.len() == 0 || steps.len() == 0 {
        return Err(PlanError::Rejected(PlanFault::InvalidDagInput));
    }
    let mut j: usize = 0;
    while j < inputs.len()
        invariant
            j <= inputs@.len(),
            inputs@ == run.inputs@,
            forall|i: int| 0 <= i < j ==> (#[trigger] inputs@[i]) < sizes@.len(),
        decreases inputs@.len() - j,
    {
        if inputs[j] >= sizes.len() {
            assert(!inputs_in_range(sizes@, inputs@)) by {
                assert(inputs@[j as int] >= sizes@.len());
            }
            return Err(PlanError::Rejected(PlanFault::InvalidDagInput));
        }
        j = j + 1;
    }
    let n = sizes[inputs[0]];
    if n > u32::MAX as usize {
        return Err(PlanError::ExceedsU32(n));
    }
    if n == 0 {
        return Err(PlanError::Rejected(PlanFault::EmptyRun));
    }
    let mut k: usize = 0;
    while k < steps.len()
        invariant
            k <= steps@.len(),
            inputs@ == run.inputs@,
            steps@ == run.steps@,
            inputs_in_range(sizes@, inputs@),
            steps@.len() > 0,
            n == sizes@[inputs@[0] as int],
            n <= u32::MAX,
            n != 0,
            forall|q: int| 0 <= q < k ==> dag_step_ok(sizes@, inputs@, n as int, #[trigger] steps@[q]),
        decreases steps@.len() - k,
    {
        let ok = match &steps[k] {
            ChainStep::Unary(_) => true,
            ChainStep::Binary { other, .. } => *other < inputs.len() && sizes[inputs[*other]] == n,
            ChainStep::BinaryBc { .. } => false,
        };
        if !ok {
            assert(!dag_step_ok(sizes@, inputs@, n as int, steps@[k as int]));
            return Err(PlanError::Rejected(PlanFault::InvalidDagOperand));
        }
        k = k + 1;
    }
    let ilen = inputs.len();
    assert(operands_bounded(steps@)) by {
        assert forall|q: int| 0 <= q < steps@.len() implies step_inputs(#[trigger] steps@[q]) <= usize::MAX by {
            assert(dag_step_ok(sizes@, inputs@, n as int, steps@[q]));
        }
    }
    if chain_input_count(steps.as_slice()) != inputs.len() {
        return Err(PlanError::Rejected(PlanFault::ArityMismatch));
    }
    Ok(n)
}

/// Checks a whole pointwise DAG over leaves of the given sizes, before
/// anything is allocated or compiled: the sizes of all slots (leaves first,
/// then one per run), or the first refusal. Run `i` reads the slots of its
/// inputs and writes slot `leaves + i`.
pub fn check_pointwise_dag(leaf_sizes: &Vec<usize>, runs: &Vec<StaticPointwiseRun>) -> (r: Result<Vec<usize>, PlanError>)
    ensures
        match dag_check(leaf_sizes@, runs@) {
            Ok(s) => r matches Ok(v) && v@ == s,
            Err(e) => r == Err::<Vec<usize>, PlanError>(e),
        },
{
    if leaf_sizes.len() == 0 || runs.len() == 0 {
        return Err(PlanError::Rejected(PlanFault::EmptyDag));
    }
    let mut sizes: Vec<usize> = leaf_sizes.clone();
    let mut r: usize = 0;
    while r < runs.len()
        invariant
            r <= runs@.len(),
            runs@.len() > 0,
            leaf_sizes@.len() > 0,
            dag_sizes(leaf_sizes@, runs@, r as int) == Ok::<Seq<usize>, PlanError>(sizes@),
        decreases runs@.len() - r,
    {
        match check_dag_run(&sizes, &runs[r]) {
            Ok(n) => {
                sizes.push(n);
            },
            Err(e) => {
                proof {
                    assert(dag_sizes(leaf_sizes@, runs@, r + 1) == Err::<Seq<usize>, PlanError>(e));
                    lemma_dag_sizes_err_sticks(leaf_sizes@, runs@, r + 1, runs@.len() as int);
                }
                return Err(e);
            },
        }
        r = r + 1;
    }
    Ok(sizes)
}

/// The extent/stride kernel arguments of a materialized layout: for each of
/// the [`MAX_LAYOUT_RANK`] dims the extent (one past the rank) then the
/// stride (zero past the rank).
pub fn materialize_extents(shape: &[usize], strides: &[usize]) -> (v: Vec<u64>)
    ensures
        v@.len() == 2 * MAX_LAYOUT_RANK,
        forall|d: int| 0 <= d < MAX_LAYOUT_RANK ==> #[trigger] v@[2 * d] == (if d < shape@.len() { shape@[d] as u64 } else { 1u64 }),
        forall|d: int| 0 <= d < MAX_LAYOUT_RANK ==> #[trigger] v@[2 * d + 1] == (if d < strides@.len() { strides@[d] as u64 } else { 0u64 }),
{
    let mut v: Vec<u64> = Vec::new();
    let mut d: usize = 0;
    while d < MAX_LAYOUT_RANK
        invariant
            d <= MAX_LAYOUT_RANK,
            v@.len() == 2 * d,
            forall|e: int| 0 <= e < d ==> #[trigger] v@[2 * e] == (if e < shape@.len() { shape@[e] as u64 } else { 1u64 }),
            forall|e: int| 0 <= e < d ==> #[trigger] v@[2 * e + 1] == (if e < strides@.len() { strides@[e] as u64 } else { 0u64 }),
        decreases MAX_LAYOUT_RANK - d,
    {
        let extent: u64 = if d < shape.len() { shape[d] as u64 } else { 1 };
        let stride: u64 = if d < strides.len() { strides[d] as u64 } else { 0 };
        v.push(extent);
        v.push(stride);
        d = d + 1;
    }
    v
}

} // verus!
