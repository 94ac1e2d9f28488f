//! Host-side CUDA C source generation for the elementwise kernels. Pure
//! string work, testable without a GPU; the sources are compiled with nvrtc
//! at first use on a real device.

use vstd::prelude::*;
use vstd::string::*;
use crate::text::{decimal, push_decimal};

verus! {

broadcast use vstd::seq_lib::group_seq_properties;

/// Every generated module exports exactly one kernel under this name; the
/// function cache is keyed by source text, so the name never collides.
pub const KERNEL_NAME: &'static str = "ferro_kernel";

/// Threads per block for the two-pass full reduction (and its finalize pass).
pub const REDUCE_BLOCK: u32 = 256;

/// Upper bound on first-pass blocks; beyond this each thread grid-strides
/// over multiple chunks so the partials buffer stays small and the single-
/// block finalize pass stays cheap.
pub const REDUCE_MAX_BLOCKS: u32 = 2048;

/// Elementwise binary operations.
#[derive(Clone, Copy, Debug, PartialEq, Eq)]
pub enum BinaryKind {
    Add,
    Sub,
    Mul,
    Div,
}

/// Full reductions.
#[derive(Clone, Copy, Debug, PartialEq, Eq)]
pub enum ReduceKind {
    Sum,
    Mean,
}

/// The C spelling of an f32 scalar operand: a literal such as `2.5f`, or a
/// bit-pattern expression such as `__int_as_float(0x7f800000)` for a
/// non-finite value.
#[derive(Clone, Debug)]
pub struct CScalar {
    pub text: String,
}

/// Elementwise unary operations; parametrized kinds carry their scalars in C spelling.
#[derive(Clone, Debug)]
pub enum UnaryKind {
    Neg,
    Relu,
    Exp,
    Sigmoid,
    Tanh,
    Sqrt,
    Abs,
    Log,
    Powf(CScalar),
    Clamp { min: CScalar, max: CScalar },
    Gtz,
    Gelu,
    GeluErf,
    GeluErfGrad,
    Silu,
}

/// The CUDA C expression computing `kind` of the input element `v`.
pub open spec fn unary_expr_text(kind: UnaryKind) -> Seq<char> {
    match kind {
        UnaryKind::Neg => "-v"@,
        UnaryKind::Relu => "((v > 0.0f || isnan(v)) ? v : 0.0f)"@,
        UnaryKind::Exp => "expf(v)"@,
        UnaryKind::Sigmoid => "1.0f / (1.0f + expf(-v))"@,
        UnaryKind::Tanh => "tanhf(v)"@,
        UnaryKind::Sqrt => "sqrtf(v)"@,
        UnaryKind::Abs => "fabsf(v)"@,
        UnaryKind::Log => "logf(v)"@,
        UnaryKind::Powf(p) => "powf(v, "@ + p.text@ + ")"@,
        UnaryKind::Clamp { min, max } => "(isnan(v) ? v : fminf(fmaxf(v, "@ + min.text@ + "), "@ + max.text@ + "))"@,
        UnaryKind::Gtz => "(v > 0.0f) ? 1.0f : 0.0f"@,
        UnaryKind::Gelu => "0.5f * v * (1.0f + tanhf(0.7978846f * (v + 0.044715f * v * v * v)))"@,
        UnaryKind::GeluErf => "0.5f * v * (1.0f + erff(v * 0.70710678f))"@,
        UnaryKind::GeluErfGrad => "0.5f * (1.0f + erff(v * 0.70710678f)) + v * expf(-0.5f * v * v) * 0.39894228f"@,
        UnaryKind::Silu => "v / (1.0f + expf(-v))"@,
    }
}

/// CUDA C expression computing `kind` of the input element `v`.
pub fn unary_expr(kind: &UnaryKind) -> (e: String)
    ensures
        e@ == unary_expr_text(*kind),
{
    match kind {
        UnaryKind::Neg => String::from_str("-v"),
        // Not fmaxf: it drops NaN, torch's relu propagates it.
        UnaryKind::Relu => String::from_str("((v > 0.0f || isnan(v)) ? v : 0.0f)"),
        UnaryKind::Exp => String::from_str("expf(v)"),
        UnaryKind::Sigmoid => String::from_str("1.0f / (1.0f + expf(-v))"),
        UnaryKind::Tanh => String::from_str("tanhf(v)"),
        UnaryKind::Sqrt => String::from_str("sqrtf(v)"),
        UnaryKind::Abs => String::from_str("fabsf(v)"),
        UnaryKind::Log => String::from_str("logf(v)"),
        UnaryKind::Powf(p) => {
            let mut e = String::from_str("powf(v, ");
            e.append(p.text.as_str());
            e.append(")");
            e
        },
        // max-then-min chain: min > max yields max everywhere; NaN passes
        // through explicitly since fmaxf/fminf would drop it.
        UnaryKind::Clamp { min, max } => {
            let mut e = String::from_str("(isnan(v) ? v : fminf(fmaxf(v, ");
            e.append(min.text.as_str());
            e.append("), ");
            e.append(max.text.as_str());
            e.append("))");
            e
        },
        UnaryKind::Gtz => String::from_str("(v > 0.0f) ? 1.0f : 0.0f"),
        // Tanh-approximation GELU.
        UnaryKind::Gelu => String::from_str("0.5f * v * (1.0f + tanhf(0.7978846f * (v + 0.044715f * v * v * v)))"),
        // Exact-erf GELU via the hardware erff. 0.70710678f = 1/sqrt(2),
        // 0.39894228f = 1/sqrt(2*pi).
        UnaryKind::GeluErf => String::from_str("0.5f * v * (1.0f + erff(v * 0.70710678f))"),
        UnaryKind::GeluErfGrad => String::from_str("0.5f * (1.0f + erff(v * 0.70710678f)) + v * expf(-0.5f * v * v) * 0.39894228f"),
        UnaryKind::Silu => String::from_str("v / (1.0f + expf(-v))"),
    }
}

/// The CUDA C expression combining elements `x` (from a) and `y` (from b).
pub open spec fn binary_expr_text(kind: BinaryKind) -> Seq<char> {
    match kind {
        BinaryKind::Add => "x + y"@,
        BinaryKind::Sub => "x - y"@,
        BinaryKind::Mul => "x * y"@,
        BinaryKind::Div => "x / y"@,
    }
}

/// CUDA C expression combining elements `x` (from a) and `y` (from b).
pub fn binary_expr(kind: BinaryKind) -> (e: &'static str)
    ensures
        e@ == binary_expr_text(kind),
{
    match kind {
        BinaryKind::Add => "x + y",
        BinaryKind::Sub => "x - y",
        BinaryKind::Mul => "x * y",
        BinaryKind::Div => "x / y",
    }
}

/// The expression that the softmax apply pass writes.
pub open spec fn softmax_apply_body(log: bool) -> Seq<char> {
    if log {
        "x[i] - (m + logf(s))"@
    } else {
        "expf(x[i] - m) / s"@
    }
}

/// The statement that the reduction finalize pass ends with.
pub open spec fn reduce_finish(kind: ReduceKind) -> Seq<char> {
    match kind {
        ReduceKind::Sum => "out[0] = sh[0];"@,
        ReduceKind::Mean => "out[0] = sh[0] / (float)total;"@,
    }
}

/// The source text of [`reduce_partial_source`].
pub open spec fn reduce_partial_text() -> Seq<char> {
    "extern \"C\" __global__ void "@
        + KERNEL_NAME@
        + "(const float* x, float* out, unsigned int n) {\n    __shared__ float sh["@
        + decimal(REDUCE_BLOCK as nat)
        + "];\n    unsigned int tid = threadIdx.x;\n    unsigned int stride = gridDim.x * blockDim.x;\n    float acc = 0.0f;\n    for (unsigned int i = blockIdx.x * blockDim.x + tid; i < n; i += stride) acc += x[i];\n    sh[tid] = acc;\n    __syncthreads();\n    for (unsigned int s = "@
        + decimal(REDUCE_BLOCK as nat)
        + " / 2; s > 0; s >>= 1) {\n        if (tid < s) sh[tid] += sh[tid + s];\n        __syncthreads();\n    }\n    if (tid == 0) out[blockIdx.x] = sh[0];\n}\n"@
}

/// Pass 1 of the full reduction: one partial sum per block. Each thread
/// grid-strides over coalesced chunks, the block reduces via a shared-memory
/// binary tree, and thread 0 writes the block total to out[blockIdx.x].
pub fn reduce_partial_source() -> (s: String)
    ensures
        s@ == reduce_partial_text(),
{
    let mut s = String::from_str("extern \"C\" __global__ void ");
    s.append(KERNEL_NAME);
    s.append("(const float* x, float* out, unsigned int n) {\n    __shared__ float sh[");
    push_decimal(&mut s, REDUCE_BLOCK as u64);
    s.append("];\n    unsigned int tid = threadIdx.x;\n    unsigned int stride = gridDim.x * blockDim.x;\n    float acc = 0.0f;\n    for (unsigned int i = blockIdx.x * blockDim.x + tid; i < n; i += stride) acc += x[i];\n    sh[tid] = acc;\n    __syncthreads();\n    for (unsigned int s = ");
    push_decimal(&mut s, REDUCE_BLOCK as u64);
    s.append(" / 2; s > 0; s >>= 1) {\n        if (tid < s) sh[tid] += sh[tid + s];\n        __syncthreads();\n    }\n    if (tid == 0) out[blockIdx.x] = sh[0];\n}\n");
    s
}

/// The source text of [`sum_dim_source`].
pub open spec fn sum_dim_text() -> Seq<char> {
    "extern \"C\" __global__ void "@
        + KERNEL_NAME@
        + "(const float* x, float* out, unsigned int n, unsigned int red, unsigned int inner) {\n    unsigned int i = blockIdx.x * blockDim.x + threadIdx.x;\n    if (i >= n) return;\n    unsigned int o = i / inner;\n    unsigned int r = i % inner;\n    float acc = 0.0f;\n    for (unsigned int k = 0; k < red; ++k) acc += x[(o * red + k) * inner + r];\n    out[i] = acc;\n}\n"@
}

/// Sum over one dim via outer/inner decomposition: one thread per
/// keepdim-layout output element, looping the reduced extent. Output element
/// (o, i) sums x[(o*red + k)*inner + i] over k.
pub fn sum_dim_source() -> (s: String)
    ensures
        s@ == sum_dim_text(),
{
    let mut s = String::from_str("extern \"C\" __global__ void ");
    s.append(KERNEL_NAME);
    s.append("(const float* x, float* out, unsigned int n, unsigned int red, unsigned int inner) {\n    unsigned int i = blockIdx.x * blockDim.x + threadIdx.x;\n    if (i >= n) return;\n    unsigned int o = i / inner;\n    unsigned int r = i % inner;\n    float acc = 0.0f;\n    for (unsigned int k = 0; k < red; ++k) acc += x[(o * red + k) * inner + r];\n    out[i] = acc;\n}\n");
    s
}

/// The source text of [`gather_source`].
pub open spec fn gather_text() -> Seq<char> {
    "extern \"C\" __global__ void "@
        + KERNEL_NAME@
        + "(const long long* idx, const float* w, float* out, unsigned int inner, unsigned int n) {\n    unsigned int i = blockIdx.x * blockDim.x + threadIdx.x;\n    if (i >= n) return;\n    unsigned int o = i / inner;\n    out[i] = w[idx[o] * inner + (i % inner)];\n}\n"@
}

/// Row gather for embedding/index_select: one thread per output element.
/// out[i] = w[idx[i / inner] * inner + i % inner]; idx entries are
/// bounds-checked on the host before launch, so no guard is needed.
pub fn gather_source() -> (s: String)
    ensures
        s@ == gather_text(),
{
    let mut s = String::from_str("extern \"C\" __global__ void ");
    s.append(KERNEL_NAME);
    s.append("(const long long* idx, const float* w, float* out, unsigned int inner, unsigned int n) {\n    unsigned int i = blockIdx.x * blockDim.x + threadIdx.x;\n    if (i >= n) return;\n    unsigned int o = i / inner;\n    out[i] = w[idx[o] * inner + (i % inner)];\n}\n");
    s
}

/// The source text of [`copy_source`].
pub open spec fn copy_text() -> Seq<char> {
    "extern \"C\" __global__ void "@
        + KERNEL_NAME@
        + "(float* out, const float* src, unsigned int n) {\n    unsigned int i = blockIdx.x * blockDim.x + threadIdx.x;\n    if (i < n) out[i] = src[i];\n}\n"@
}

/// Elementwise copy src->out as a real kernel: a kernel launch is always
/// recorded as a graph node during stream capture, whereas a raw
/// device-to-device copy may execute eagerly, so in-place buffer refreshes
/// inside captured training steps go through this kernel.
pub fn copy_source() -> (s: String)
    ensures
        s@ == copy_text(),
{
    let mut s = String::from_str("extern \"C\" __global__ void ");
    s.append(KERNEL_NAME);
    s.append("(float* out, const float* src, unsigned int n) {\n    unsigned int i = blockIdx.x * blockDim.x + threadIdx.x;\n    if (i < n) out[i] = src[i];\n}\n");
    s
}

/// The source text of [`fill_source`].
pub open spec fn fill_text() -> Seq<char> {
    "extern \"C\" __global__ void "@
        + KERNEL_NAME@
        + "(float* out, unsigned int n, float value) {\n    unsigned int i = blockIdx.x * blockDim.x + threadIdx.x;\n    if (i < n) out[i] = value;\n}\n"@
}

/// Constant fill; the value is a kernel parameter so one compiled function
/// serves every fill.
pub fn fill_source() -> (s: String)
    ensures
        s@ == fill_text(),
{
    let mut s = String::from_str("extern \"C\" __global__ void ");
    s.append(KERNEL_NAME);
    s.append("(float* out, unsigned int n, float value) {\n    unsigned int i = blockIdx.x * blockDim.x + threadIdx.x;\n    if (i < n) out[i] = value;\n}\n");
    s
}

/// The source text of [`affine_inplace_source`].
pub open spec fn affine_inplace_text() -> Seq<char> {
    "extern \"C\" __global__ void "@
        + KERNEL_NAME@
        + "(float* dst, unsigned int n, float mul, float add) {\n    unsigned int i = blockIdx.x * blockDim.x + threadIdx.x;\n    if (i < n) dst[i] = __fadd_rn(__fmul_rn(dst[i], mul), add);\n}\n"@
}

/// dst[i] = dst[i] * mul + add, with explicit round-to-nearest intrinsics.
pub fn affine_inplace_source() -> (s: String)
    ensures
        s@ == affine_inplace_text(),
{
    let mut s = String::from_str("extern \"C\" __global__ void ");
    s.append(KERNEL_NAME);
    s.append("(float* dst, unsigned int n, float mul, float add) {\n    unsigned int i = blockIdx.x * blockDim.x + threadIdx.x;\n    if (i < n) dst[i] = __fadd_rn(__fmul_rn(dst[i], mul), add);\n}\n");
    s
}

/// The source text of [`axpy_inplace_source`].
pub open spec fn axpy_inplace_text() -> Seq<char> {
    "extern \"C\" __global__ void "@
        + KERNEL_NAME@
        + "(float* dst, const float* src, unsigned int n, float alpha) {\n    unsigned int i = blockIdx.x * blockDim.x + threadIdx.x;\n    if (i < n) dst[i] = __fadd_rn(dst[i], __fmul_rn(alpha, src[i]));\n}\n"@
}

/// dst[i] += alpha * src[i], with explicit round-to-nearest intrinsics.
pub fn axpy_inplace_source() -> (s: String)
    ensures
        s@ == axpy_inplace_text(),
{
    let mut s = String::from_str("extern \"C\" __global__ void ");
    s.append(KERNEL_NAME);
    s.append("(float* dst, const float* src, unsigned int n, float alpha) {\n    unsigned int i = blockIdx.x * blockDim.x + threadIdx.x;\n    if (i < n) dst[i] = __fadd_rn(dst[i], __fmul_rn(alpha, src[i]));\n}\n");
    s
}

/// The source text of [`sgd_step_source`].
pub open spec fn sgd_step_text() -> Seq<char> {
    "extern \"C\" __global__ void "@
        + KERNEL_NAME@
        + "(float* p, float* v, const float* g, unsigned int n, float lr, float momentum, int nesterov) {\n    unsigned int i = blockIdx.x * blockDim.x + threadIdx.x;\n    if (i >= n) return;\n    float vi = __fadd_rn(__fmul_rn(v[i], momentum), g[i]);\n    v[i] = vi;\n    float d = nesterov ? __fadd_rn(__fmul_rn(vi, momentum), g[i]) : vi;\n    p[i] = __fsub_rn(p[i], __fmul_rn(d, lr));\n}\n"@
}

/// One fused SGD-with-momentum step:
/// v = momentum*v + g; p -= lr * (nesterov ? momentum*v + g : v).
pub fn sgd_step_source() -> (s: String)
    ensures
        s@ == sgd_step_text(),
{
    let mut s = String::from_str("extern \"C\" __global__ void ");
    s.append(KERNEL_NAME);
    s.append("(float* p, float* v, const float* g, unsigned int n, float lr, float momentum, int nesterov) {\n    unsigned int i = blockIdx.x * blockDim.x + threadIdx.x;\n    if (i >= n) return;\n    float vi = __fadd_rn(__fmul_rn(v[i], momentum), g[i]);\n    v[i] = vi;\n    float d = nesterov ? __fadd_rn(__fmul_rn(vi, momentum), g[i]) : vi;\n    p[i] = __fsub_rn(p[i], __fmul_rn(d, lr));\n}\n");
    s
}

/// The source text of [`adamw_step_source`].
pub open spec fn adamw_step_text() -> Seq<char> {
    "extern \"C\" __global__ void "@
        + KERNEL_NAME@
        + "(float* p, float* m, float* v, const float* g, unsigned int n, float lr, float beta1, float beta2, float bc1, float bc2, float eps, float wd) {\n    unsigned int i = blockIdx.x * blockDim.x + threadIdx.x;\n    if (i >= n) return;\n    float gi = g[i];\n    float mi = __fadd_rn(__fmul_rn(m[i], beta1), __fmul_rn(gi, __fsub_rn(1.0f, beta1)));\n    float vi = __fadd_rn(__fmul_rn(v[i], beta2), __fmul_rn(__fmul_rn(gi, gi), __fsub_rn(1.0f, beta2)));\n    m[i] = mi;\n    v[i] = vi;\n    float m_hat = __fdiv_rn(mi, bc1);\n    float denom = __fsqrt_rn(__fdiv_rn(vi, bc2));\n    float upd = __fdiv_rn(m_hat, __fadd_rn(denom, eps));\n    if (wd != 0.0f) upd = __fadd_rn(upd, __fmul_rn(wd, p[i]));\n    p[i] = __fsub_rn(p[i], __fmul_rn(upd, lr));\n}\n"@
}

/// Whether `part` occurs in `text` at position `p`.
pub open spec fn occurs_at(text: Seq<char>, p: int, part: Seq<char>) -> bool {
    0 <= p && p + part.len() <= text.len() && text.subrange(p, p + part.len()) == part
}

/// AdamW law: the generated step updates the moments, `m = beta1 * m + (1 -
/// beta1) * g` and `v = beta2 * v + (1 - beta2) * g * g`, then bias-corrects
/// both (`m_hat = m / bc1`, `denom = sqrt(v / bc2)`), takes `upd = m_hat /
/// (denom + eps)`, adds `wd * p` when the decay is on, and moves `p` by
/// `lr * upd`, in that order.
pub proof fn law_adamw_step_is_bias_corrected()
    ensures
        exists|a: int, b: int, c: int, d: int, e: int, f: int, g: int|
            #![trigger occurs_at(adamw_step_text(), a, "float mi = __fadd_rn(__fmul_rn(m[i], beta1), __fmul_rn(gi, __fsub_rn(1.0f, beta1)));"@), occurs_at(adamw_step_text(), g, "p[i] = __fsub_rn(p[i], __fmul_rn(upd, lr));"@), occurs_at(adamw_step_text(), c, "float m_hat = __fdiv_rn(mi, bc1);"@), occurs_at(adamw_step_text(), b, "float vi = __fadd_rn(__fmul_rn(v[i], beta2), __fmul_rn(__fmul_rn(gi, gi), __fsub_rn(1.0f, beta2)));"@), occurs_at(adamw_step_text(), d, "float denom = __fsqrt_rn(__fdiv_rn(vi, bc2));"@), occurs_at(adamw_step_text(), e, "float upd = __fdiv_rn(m_hat, __fadd_rn(denom, eps));"@), occurs_at(adamw_step_text(), f, "if (wd != 0.0f) upd = __fadd_rn(upd, __fmul_rn(wd, p[i]));"@)]
            a < b < c < d < e < f < g
            && occurs_at(adamw_step_text(), a, "float mi = __fadd_rn(__fmul_rn(m[i], beta1), __fmul_rn(gi, __fsub_rn(1.0f, beta1)));"@)
            && occurs_at(adamw_step_text(), b, "float vi = __fadd_rn(__fmul_rn(v[i], beta2), __fmul_rn(__fmul_rn(gi, gi), __fsub_rn(1.0f, beta2)));"@)
            && occurs_at(adamw_step_text(), c, "float m_hat = __fdiv_rn(mi, bc1);"@)
            && occurs_at(adamw_step_text(), d, "float denom = __fsqrt_rn(__fdiv_rn(vi, bc2));"@)
            && occurs_at(adamw_step_text(), e, "float upd = __fdiv_rn(m_hat, __fadd_rn(denom, eps));"@)
            && occurs_at(adamw_step_text(), f, "if (wd != 0.0f) upd = __fadd_rn(upd, __fmul_rn(wd, p[i]));"@)
            && occurs_at(adamw_step_text(), g, "p[i] = __fsub_rn(p[i], __fmul_rn(upd, lr));"@),
{
    let t = adamw_step_text();
    reveal_strlit("extern \"C\" __global__ void ");
    reveal_strlit("ferro_kernel");
    reveal_strlit("(float* p, float* m, float* v, const float* g, unsigned int n, float lr, float beta1, float beta2, float bc1, float bc2, float eps, float wd) {\n    unsigned int i = blockIdx.x * blockDim.x + threadIdx.x;\n    if (i >= n) return;\n    float gi = g[i];\n    float mi = __fadd_rn(__fmul_rn(m[i], beta1), __fmul_rn(gi, __fsub_rn(1.0f, beta1)));\n    float vi = __fadd_rn(__fmul_rn(v[i], beta2), __fmul_rn(__fmul_rn(gi, gi), __fsub_rn(1.0f, beta2)));\n    m[i] = mi;\n    v[i] = vi;\n    float m_hat = __fdiv_rn(mi, bc1);\n    float denom = __fsqrt_rn(__fdiv_rn(vi, bc2));\n    float upd = __fdiv_rn(m_hat, __fadd_rn(denom, eps));\n    if (wd != 0.0f) upd = __fadd_rn(upd, __fmul_rn(wd, p[i]));\n    p[i] = __fsub_rn(p[i], __fmul_rn(upd, lr));\n}\n");
    reveal_strlit("float mi = __fadd_rn(__fmul_rn(m[i], beta1), __fmul_rn(gi, __fsub_rn(1.0f, beta1)));");
    reveal_strlit("float vi = __fadd_rn(__fmul_rn(v[i], beta2), __fmul_rn(__fmul_rn(gi, gi), __fsub_rn(1.0f, beta2)));");
    reveal_strlit("float m_hat = __fdiv_rn(mi, bc1);");
    reveal_strlit("float denom = __fsqrt_rn(__fdiv_rn(vi, bc2));");
    reveal_strlit("float upd = __fdiv_rn(m_hat, __fadd_rn(denom, eps));");
    reveal_strlit("if (wd != 0.0f) upd = __fadd_rn(upd, __fmul_rn(wd, p[i]));");
    reveal_strlit("p[i] = __fsub_rn(p[i], __fmul_rn(upd, lr));");
    assert(t.subrange(292, 376) =~= "float mi = __fadd_rn(__fmul_rn(m[i], beta1), __fmul_rn(gi, __fsub_rn(1.0f, beta1)));"@);
    assert(t.subrange(381, 480) =~= "float vi = __fadd_rn(__fmul_rn(v[i], beta2), __fmul_rn(__fmul_rn(gi, gi), __fsub_rn(1.0f, beta2)));"@);
    assert(t.subrange(515, 548) =~= "float m_hat = __fdiv_rn(mi, bc1);"@);
    assert(t.subrange(553, 598) =~= "float denom = __fsqrt_rn(__fdiv_rn(vi, bc2));"@);
    assert(t.subrange(603, 655) =~= "float upd = __fdiv_rn(m_hat, __fadd_rn(denom, eps));"@);
    assert(t.subrange(660, 718) =~= "if (wd != 0.0f) upd = __fadd_rn(upd, __fmul_rn(wd, p[i]));"@);
    assert(t.subrange(723, 766) =~= "p[i] = __fsub_rn(p[i], __fmul_rn(upd, lr));"@);
    assert(occurs_at(t, 292, "float mi = __fadd_rn(__fmul_rn(m[i], beta1), __fmul_rn(gi, __fsub_rn(1.0f, beta1)));"@));
    assert(occurs_at(t, 381, "float vi = __fadd_rn(__fmul_rn(v[i], beta2), __fmul_rn(__fmul_rn(gi, gi), __fsub_rn(1.0f, beta2)));"@));
    assert(occurs_at(t, 515, "float m_hat = __fdiv_rn(mi, bc1);"@));
    assert(occurs_at(t, 553, "float denom = __fsqrt_rn(__fdiv_rn(vi, bc2));"@));
    assert(occurs_at(t, 603, "float upd = __fdiv_rn(m_hat, __fadd_rn(denom, eps));"@));
    assert(occurs_at(t, 660, "if (wd != 0.0f) upd = __fadd_rn(upd, __fmul_rn(wd, p[i]));"@));
    assert(occurs_at(t, 723, "p[i] = __fsub_rn(p[i], __fmul_rn(upd, lr));"@));
}

/// One fused Adam/AdamW step (weight_decay == 0 is Adam; the decay reads the
/// pre-update parameter).
pub fn adamw_step_source() -> (s: String)
    ensures
        s@ == adamw_step_text(),
{
    let mut s = String::from_str("extern \"C\" __global__ void ");
    s.append(KERNEL_NAME);
    s.append("(float* p, float* m, float* v, const float* g, unsigned int n, float lr, float beta1, float beta2, float bc1, float bc2, float eps, float wd) {\n    unsigned int i = blockIdx.x * blockDim.x + threadIdx.x;\n    if (i >= n) return;\n    float gi = g[i];\n    float mi = __fadd_rn(__fmul_rn(m[i], beta1), __fmul_rn(gi, __fsub_rn(1.0f, beta1)));\n    float vi = __fadd_rn(__fmul_rn(v[i], beta2), __fmul_rn(__fmul_rn(gi, gi), __fsub_rn(1.0f, beta2)));\n    m[i] = mi;\n    v[i] = vi;\n    float m_hat = __fdiv_rn(mi, bc1);\n    float denom = __fsqrt_rn(__fdiv_rn(vi, bc2));\n    float upd = __fdiv_rn(m_hat, __fadd_rn(denom, eps));\n    if (wd != 0.0f) upd = __fadd_rn(upd, __fmul_rn(wd, p[i]));\n    p[i] = __fsub_rn(p[i], __fmul_rn(upd, lr));\n}\n");
    s
}

/// The source text of [`softmax_row_stats_source`].
pub open spec fn softmax_row_stats_text() -> Seq<char> {
    "extern \"C\" __global__ void "@
        + KERNEL_NAME@
        + "(const float* x, float* stats, unsigned int cols) {\n    __shared__ float sh["@
        + decimal(REDUCE_BLOCK as nat)
        + "];\n    const float* xr = x + blockIdx.x * cols;\n    unsigned int tid = threadIdx.x;\n    float m = __int_as_float(0xff800000);\n    for (unsigned int k = tid; k < cols; k += blockDim.x) m = fmaxf(m, xr[k]);\n    sh[tid] = m;\n    __syncthreads();\n    for (unsigned int s = "@
        + decimal(REDUCE_BLOCK as nat)
        + " / 2; s > 0; s >>= 1) {\n        if (tid < s) sh[tid] = fmaxf(sh[tid], sh[tid + s]);\n        __syncthreads();\n    }\n    m = sh[0];\n    __syncthreads();\n    float acc = 0.0f;\n    for (unsigned int k = tid; k < cols; k += blockDim.x) acc += expf(xr[k] - m);\n    sh[tid] = acc;\n    __syncthreads();\n    for (unsigned int s = "@
        + decimal(REDUCE_BLOCK as nat)
        + " / 2; s > 0; s >>= 1) {\n        if (tid < s) sh[tid] += sh[tid + s];\n        __syncthreads();\n    }\n    if (tid == 0) {\n        stats[2 * blockIdx.x] = m;\n        stats[2 * blockIdx.x + 1] = sh[0];\n    }\n}\n"@
}

/// Softmax pass 1, one block per row of `cols` elements: block-reduce the row
/// max via shared memory, then (reusing the buffer) block-reduce the sum of
/// exp(x - max). Writes stats[2*row] = max, stats[2*row+1] = sum.
pub fn softmax_row_stats_source() -> (s: String)
    ensures
        s@ == softmax_row_stats_text(),
{
    let mut s = String::from_str("extern \"C\" __global__ void ");
    s.append(KERNEL_NAME);
    s.append("(const float* x, float* stats, unsigned int cols) {\n    __shared__ float sh[");
    push_decimal(&mut s, REDUCE_BLOCK as u64);
    s.append("];\n    const float* xr = x + blockIdx.x * cols;\n    unsigned int tid = threadIdx.x;\n    float m = __int_as_float(0xff800000);\n    for (unsigned int k = tid; k < cols; k += blockDim.x) m = fmaxf(m, xr[k]);\n    sh[tid] = m;\n    __syncthreads();\n    for (unsigned int s = ");
    push_decimal(&mut s, REDUCE_BLOCK as u64);
    s.append(" / 2; s > 0; s >>= 1) {\n        if (tid < s) sh[tid] = fmaxf(sh[tid], sh[tid + s]);\n        __syncthreads();\n    }\n    m = sh[0];\n    __syncthreads();\n    float acc = 0.0f;\n    for (unsigned int k = tid; k < cols; k += blockDim.x) acc += expf(xr[k] - m);\n    sh[tid] = acc;\n    __syncthreads();\n    for (unsigned int s = ");
    push_decimal(&mut s, REDUCE_BLOCK as u64);
    s.append(" / 2; s > 0; s >>= 1) {\n        if (tid < s) sh[tid] += sh[tid + s];\n        __syncthreads();\n    }\n    if (tid == 0) {\n        stats[2 * blockIdx.x] = m;\n        stats[2 * blockIdx.x + 1] = sh[0];\n    }\n}\n");
    s
}

/// The source text of [`softmax_apply_source`].
pub open spec fn softmax_apply_text(log: bool) -> Seq<char> {
    "extern \"C\" __global__ void "@
        + KERNEL_NAME@
        + "(const float* x, const float* stats, float* out, unsigned int n, unsigned int cols) {\n    unsigned int i = blockIdx.x * blockDim.x + threadIdx.x;\n    if (i >= n) return;\n    unsigned int row = i / cols;\n    float m = stats[2 * row];\n    float s = stats[2 * row + 1];\n    out[i] = "@
        + softmax_apply_body(log)
        + ";\n}\n"@
}

/// Softmax pass 2: elementwise apply of the per-row stats. `log` selects
/// log_softmax (y = x - (m + log s)) over plain softmax (y = exp(x - m) / s).
pub fn softmax_apply_source(log: bool) -> (s: String)
    ensures
        s@ == softmax_apply_text(log),
{
    let body = if log {
        "x[i] - (m + logf(s))"
    } else {
        "expf(x[i] - m) / s"
    };
    let mut s = String::from_str("extern \"C\" __global__ void ");
    s.append(KERNEL_NAME);
    s.append("(const float* x, const float* stats, float* out, unsigned int n, unsigned int cols) {\n    unsigned int i = blockIdx.x * blockDim.x + threadIdx.x;\n    if (i >= n) return;\n    unsigned int row = i / cols;\n    float m = stats[2 * row];\n    float s = stats[2 * row + 1];\n    out[i] = ");
    s.append(body);
    s.append(";\n}\n");
    s
}

/// The source text of [`reduce_finalize_source`].
pub open spec fn reduce_finalize_text(kind: ReduceKind) -> Seq<char> {
    "extern \"C\" __global__ void "@
        + KERNEL_NAME@
        + "(const float* p, float* out, unsigned int n, unsigned int total) {\n    __shared__ float sh["@
        + decimal(REDUCE_BLOCK as nat)
        + "];\n    unsigned int tid = threadIdx.x;\n    float acc = 0.0f;\n    for (unsigned int i = tid; i < n; i += blockDim.x) acc += p[i];\n    sh[tid] = acc;\n    __syncthreads();\n    for (unsigned int s = "@
        + decimal(REDUCE_BLOCK as nat)
        + " / 2; s > 0; s >>= 1) {\n        if (tid < s) sh[tid] += sh[tid + s];\n        __syncthreads();\n    }\n    if (tid == 0) { "@
        + reduce_finish(kind)
        + " }\n}\n"@
}

/// Pass 2: one block reduces the per-block partials into out[0]. `n` is the
/// partial count, `total` the original element count (Mean divides by it).
pub fn reduce_finalize_source(kind: ReduceKind) -> (s: String)
    ensures
        s@ == reduce_finalize_text(kind),
{
    let finish = match kind {
        ReduceKind::Sum => "out[0] = sh[0];",
        // Empty-input mean is 0/0 = NaN.
        ReduceKind::Mean => "out[0] = sh[0] / (float)total;",
    };
    let mut s = String::from_str("extern \"C\" __global__ void ");
    s.append(KERNEL_NAME);
    s.append("(const float* p, float* out, unsigned int n, unsigned int total) {\n    __shared__ float sh[");
    push_decimal(&mut s, REDUCE_BLOCK as u64);
    s.append("];\n    unsigned int tid = threadIdx.x;\n    float acc = 0.0f;\n    for (unsigned int i = tid; i < n; i += blockDim.x) acc += p[i];\n    sh[tid] = acc;\n    __syncthreads();\n    for (unsigned int s = ");
    push_decimal(&mut s, REDUCE_BLOCK as u64);
    s.append(" / 2; s > 0; s >>= 1) {\n        if (tid < s) sh[tid] += sh[tid + s];\n        __syncthreads();\n    }\n    if (tid == 0) { ");
    s.append(finish);
    s.append(" }\n}\n");
    s
}

/// The source text of [`unary_source`].
pub open spec fn unary_source_text(kind: UnaryKind) -> Seq<char> {
    "extern \"C\" __global__ void "@
        + KERNEL_NAME@
        + "(const float* x, float* out, unsigned int n) {\n    unsigned int i = blockIdx.x * blockDim.x + threadIdx.x;\n    if (i < n) { float v = x[i]; out[i] = "@
        + unary_expr_text(kind)
        + "; }\n}\n"@
}

/// Elementwise unary kernel applying `kind` to each element.
pub fn unary_source(kind: &UnaryKind) -> (s: String)
    ensures
        s@ == unary_source_text(*kind),
{
    let e = unary_expr(kind);
    let mut s = String::from_str("extern \"C\" __global__ void ");
    s.append(KERNEL_NAME);
    s.append("(const float* x, float* out, unsigned int n) {\n    unsigned int i = blockIdx.x * blockDim.x + threadIdx.x;\n    if (i < n) { float v = x[i]; out[i] = ");
    s.append(e.as_str());
    s.append("; }\n}\n");
    s
}

/// The source text of [`binary_source`].
pub open spec fn binary_source_text(kind: BinaryKind) -> Seq<char> {
    "extern \"C\" __global__ void "@
        + KERNEL_NAME@
        + "(const float* a, const float* b, float* out, unsigned int n) {\n    unsigned int i = blockIdx.x * blockDim.x + threadIdx.x;\n    if (i < n) { float x = a[i]; float y = b[i]; out[i] = "@
        + binary_expr_text(kind)
        + "; }\n}\n"@
}

/// Elementwise binary kernel combining same-length inputs with `kind`.
pub fn binary_source(kind: BinaryKind) -> (s: String)
    ensures
        s@ == binary_source_text(kind),
{
    let mut s = String::from_str("extern \"C\" __global__ void ");
    s.append(KERNEL_NAME);
    s.append("(const float* a, const float* b, float* out, unsigned int n) {\n    unsigned int i = blockIdx.x * blockDim.x + threadIdx.x;\n    if (i < n) { float x = a[i]; float y = b[i]; out[i] = ");
    s.append(binary_expr(kind));
    s.append("; }\n}\n");
    s
}

/// The source text of [`binary_inplace_source`].
pub open spec fn binary_inplace_text(kind: BinaryKind) -> Seq<char> {
    "extern \"C\" __global__ void "@
        + KERNEL_NAME@
        + "(float* dst, const float* src, unsigned int n) {\n    unsigned int i = blockIdx.x * blockDim.x + threadIdx.x;\n    if (i < n) { float x = dst[i]; float y = src[i]; dst[i] = "@
        + binary_expr_text(kind)
        + "; }\n}\n"@
}

/// dst[i] = dst[i] kind src[i]; dst may alias src (same-index access only).
pub fn binary_inplace_source(kind: BinaryKind) -> (s: String)
    ensures
        s@ == binary_inplace_text(kind),
{
    let mut s = String::from_str("extern \"C\" __global__ void ");
    s.append(KERNEL_NAME);
    s.append("(float* dst, const float* src, unsigned int n) {\n    unsigned int i = blockIdx.x * blockDim.x + threadIdx.x;\n    if (i < n) { float x = dst[i]; float y = src[i]; dst[i] = ");
    s.append(binary_expr(kind));
    s.append("; }\n}\n");
    s
}

/// Concatenation of `f(lo), f(lo + 1), ..., f(hi - 1)`.
pub open spec fn concat_up(f: spec_fn(int) -> Seq<char>, lo: int, hi: int) -> Seq<char>
    decreases hi - lo,
{
    if lo >= hi {
        seq![]
    } else {
        concat_up(f, lo, hi - 1) + f(hi - 1)
    }
}

/// Concatenation of `f(n - 1), f(n - 2), ..., f(0)`.
pub open spec fn concat_down(f: spec_fn(int) -> Seq<char>, n: int) -> Seq<char>
    decreases n,
{
    if n <= 0 {
        seq![]
    } else {
        f(n - 1) + concat_down(f, n - 1)
    }
}

/// `", unsigned int <name><d>"`.
pub open spec fn uint_param(name: Seq<char>, d: int) -> Seq<char> {
    ", unsigned int "@ + name + decimal(d as nat)
}

/// The shape and stride parameters of the rank-`rank` broadcast kernel.
pub open spec fn bc_params(rank: int) -> Seq<char> {
    concat_up(|d: int| uint_param("d"@, d), 0, rank) + concat_up(|d: int| uint_param("sa"@, d), 0, rank)
        + concat_up(|d: int| uint_param("sb"@, d), 0, rank)
}

/// One divmod step of the broadcast kernel's index decomposition.
pub open spec fn bc_divmod_line(d: int) -> Seq<char> {
    "    c = rem % d"@ + decimal(d as nat) + "; rem /= d"@ + decimal(d as nat) + "; ia += c * sa"@ + decimal(d as nat)
        + "; ib += c * sb"@ + decimal(d as nat) + ";\n"@
}

/// The source text of [`binary_bc_source`].
pub open spec fn binary_bc_text(kind: BinaryKind, rank: int) -> Seq<char> {
    "extern \"C\" __global__ void "@ + KERNEL_NAME@ + "(const float* a, const float* b, float* out, unsigned int n"@
        + bc_params(rank)
        + ") {\n    unsigned int i = blockIdx.x * blockDim.x + threadIdx.x;\n    if (i >= n) return;\n    unsigned int rem = i;\n    unsigned int ia = 0;\n    unsigned int ib = 0;\n    unsigned int c;\n"@
        + concat_down(|d: int| bc_divmod_line(d), rank) + "    float x = a[ia]; float y = b[ib];\n    out[i] = "@
        + binary_expr_text(kind) + ";\n}\n"@
}

/// Appends `uint_param(name, d)` for `d` in `0..rank`.
fn push_uint_params(s: &mut String, name: &str, rank: usize)
    ensures
        final(s)@ == old(s)@ + concat_up(|d: int| uint_param(name@, d), 0, rank as int),
{
    let ghost f = |d: int| uint_param(name@, d);
    let ghost start = s@;
    let mut d: usize = 0;
    while d < rank
        invariant
            d <= rank,
            f == (|d: int| uint_param(name@, d)),
            s@ == start + concat_up(f, 0, d as int),
        decreases rank - d,
    {
        s.append(", unsigned int ");
        s.append(name);
        push_decimal(s, d as u64);
        assert(concat_up(f, 0, d + 1) == concat_up(f, 0, d as int) + f(d as int));
        d = d + 1;
    }
}

/// Broadcasting binary kernel, generated per (kind, rank): shapes and strides
/// are plain `unsigned int` kernel parameters (rank of them each), so one
/// compiled function serves every shape of that rank. Each thread decomposes
/// its flat output index into coordinates via divmod (innermost dim first)
/// and accumulates the two input offsets from the padded strides (0 for
/// broadcast dims, see [`broadcast_strides`]).
pub fn binary_bc_source(kind: BinaryKind, rank: usize) -> (s: String)
    requires
        rank >= 1,
    ensures
        s@ == binary_bc_text(kind, rank as int),
{
    let mut s = String::from_str("extern \"C\" __global__ void ");
    s.append(KERNEL_NAME);
    s.append("(const float* a, const float* b, float* out, unsigned int n");
    push_uint_params(&mut s, "d", rank);
    push_uint_params(&mut s, "sa", rank);
    push_uint_params(&mut s, "sb", rank);
    s.append(") {\n    unsigned int i = blockIdx.x * blockDim.x + threadIdx.x;\n    if (i >= n) return;\n    unsigned int rem = i;\n    unsigned int ia = 0;\n    unsigned int ib = 0;\n    unsigned int c;\n");
    let ghost f = |d: int| bc_divmod_line(d);
    let ghost start = s@;
    let mut j: usize = rank;
    while j > 0
        invariant
            j <= rank,
            f == (|d: int| bc_divmod_line(d)),
            s@ + concat_down(f, j as int) == start + concat_down(f, rank as int),
        decreases j,
    {
        let d = j - 1;
        s.append("    c = rem % d");
        push_decimal(&mut s, d as u64);
        s.append("; rem /= d");
        push_decimal(&mut s, d as u64);
        s.append("; ia += c * sa");
        push_decimal(&mut s, d as u64);
        s.append("; ib += c * sb");
        push_decimal(&mut s, d as u64);
        s.append(";\n");
        j = d;
    }
    s.append("    float x = a[ia]; float y = b[ib];\n    out[i] = ");
    s.append(binary_expr(kind));
    s.append(";\n}\n");
    s
}

/// Launch geometry for [`reduce_partial_source`]: ceil(n/block) blocks,
/// capped at [`REDUCE_MAX_BLOCKS`].
pub fn reduce_grid(n: usize) -> (g: u32)
    ensures
        g == if (n as int + 255) / 256 <= 2048 {
            (n as int + 255) / 256
        } else {
            2048
        },
{
    let q = n / 256;
    let blocks: usize = if n % 256 != 0 {
        q + 1
    } else {
        q
    };
    assert(blocks == ((n as int) + 255) / 256) by (nonlinear_arith)
        requires
            q == n / 256,
            blocks == if n % 256 != 0 { q + 1 } else { q as int },
    ;
    if blocks < 2048 {
        blocks as u32
    } else {
        REDUCE_MAX_BLOCKS
    }
}

/// Product of the extents `shape[d..]`, each taken modulo 2^32 as the
/// kernel's `unsigned int` arguments hold them.
pub open spec fn suffix_product(shape: Seq<usize>, d: int) -> int
    decreases shape.len() - d,
{
    if 0 <= d < shape.len() {
        (shape[d] as u32) as int * suffix_product(shape, d + 1)
    } else {
        1
    }
}

/// Rank of the broadcast output as launched: rank-0 outputs run as rank 1.
pub open spec fn launch_rank(out_rank: int) -> int {
    if out_rank < 1 {
        1
    } else {
        out_rank
    }
}

/// Element stride, in the padded output rank, of output dim `k` for a
/// contiguous input of shape `in_shape` (numpy right-aligned broadcasting):
/// 0 for padded and size-1 dims, else the product of the later input extents.
pub open spec fn broadcast_stride(in_shape: Seq<usize>, out_rank: int, k: int) -> int {
    let pad = launch_rank(out_rank) - in_shape.len();
    if k >= pad && in_shape[k - pad] != 1 {
        suffix_product(in_shape, k - pad + 1)
    } else {
        0
    }
}

/// Host-side companion of [`binary_bc_source`]: element strides for indexing
/// a contiguous buffer of `in_shape` as if broadcast (numpy right-aligned
/// rules) to `out_shape`. Padded/size-1 dims get stride 0. Returns
/// `max(out_shape.len(), 1)` entries so rank-0 outputs still launch a rank-1
/// kernel over a single element.
pub fn broadcast_strides(in_shape: &[usize], out_shape: &[usize]) -> (strides: Vec<u32>)
    requires
        in_shape@.len() <= launch_rank(out_shape@.len() as int),
        forall|d: int| 0 <= d < in_shape@.len() ==> suffix_product(in_shape@, d) <= u32::MAX,
    ensures
        strides@.len() == launch_rank(out_shape@.len() as int),
        forall|k: int| 0 <= k < strides@.len() ==> strides@[k] == broadcast_stride(in_shape@, out_shape@.len() as int, k),
{
    let rank = if out_shape.len() > 1 {
        out_shape.len()
    } else {
        1
    };
    let mut strides: Vec<u32> = Vec::new();
    let mut k: usize = 0;
    while k < rank
        invariant
            k <= rank,
            strides@.len() == k,
            forall|x: int| 0 <= x < k ==> strides@[x] == 0,
        decreases rank - k,
    {
        strides.push(0);
        k = k + 1;
    }
    let n = in_shape.len();
    let pad = rank - n;
    let mut stride: u32 = 1;
    let mut d: usize = n;
    while d > 0
        invariant
            d <= n == in_shape@.len(),
            rank == launch_rank(out_shape@.len() as int),
            pad == rank - n,
            strides@.len() == rank,
            stride == suffix_product(in_shape@, d as int),
            forall|x: int| 0 <= x < in_shape@.len() ==> suffix_product(in_shape@, x) <= u32::MAX,
            forall|x: int| 0 <= x < pad + d ==> strides@[x] == 0,
            forall|x: int| pad + d <= x < rank ==> strides@[x] == broadcast_stride(in_shape@, out_shape@.len() as int, x),
        decreases d,
    {
        let i = d - 1;
        if in_shape[i] != 1 {
            strides.set(pad + i, stride);
        }
        let extent: u32 = #[verifier::truncate] (in_shape[i] as u32);
        assert(suffix_product(in_shape@, i as int) == extent as int * stride);
        stride = extent * stride;
        d = i;
    }
    assert forall|x: int| 0 <= x < rank implies strides@[x] == broadcast_stride(in_shape@, out_shape@.len() as int, x) by {
        if x < pad {
            assert(strides@[x] == 0);
        }
    }
    strides
}

/// One step of a fused pointwise chain (see [`chain_source`]). `other`
/// indexes the kernel's trailing input pointers (x0 is always the chain's
/// seed element). The broadcast variant carries the output decomposition
/// dims and the operand's padded strides host-side; they become runtime
/// kernel args so one compiled function serves every shape of that rank.
#[derive(Debug, Clone)]
pub enum ChainStep {
    Unary(UnaryKind),
    Binary { kind: BinaryKind, other: usize },
    BinaryBc { kind: BinaryKind, other: usize, dims: Vec<u32>, strides: Vec<u32> },
}

/// Number of input pointers a step needs: operand `other` needs `other + 1`.
pub open spec fn step_inputs(s: ChainStep) -> int {
    match s {
        ChainStep::Unary(_) => 1,
        ChainStep::Binary { other, .. } => other + 1,
        ChainStep::BinaryBc { other, .. } => other + 1,
    }
}

/// Input pointers the first `n` steps need (the seed x0 at least).
pub open spec fn inputs_of(steps: Seq<ChainStep>, n: int) -> int
    decreases n,
{
    if n <= 0 {
        1
    } else {
        let prev = inputs_of(steps, n - 1);
        let here = step_inputs(steps[n - 1]);
        if here > prev {
            here
        } else {
            prev
        }
    }
}

/// Whether every operand index of `steps` leaves room for `other + 1`.
pub open spec fn operands_bounded(steps: Seq<ChainStep>) -> bool {
    forall|k: int| 0 <= k < steps.len() ==> step_inputs(#[trigger] steps[k]) <= usize::MAX
}

/// Number of input pointers the chain kernel takes.
pub fn chain_input_count(steps: &[ChainStep]) -> (n: usize)
    requires
        operands_bounded(steps@),
    ensures
        n == inputs_of(steps@, steps@.len() as int),
{
    let mut m: usize = 1;
    let mut k: usize = 0;
    while k < steps.len()
        invariant
            k <= steps@.len(),
            operands_bounded(steps@),
            m == inputs_of(steps@, k as int),
        decreases steps@.len() - k,
    {
        assert(step_inputs(steps@[k as int]) <= usize::MAX);
        let here: usize = match &steps[k] {
            ChainStep::Unary(_) => 1,
            ChainStep::Binary { other, .. } => *other + 1,
            ChainStep::BinaryBc { other, .. } => *other + 1,
        };
        if here > m {
            m = here;
        }
        k = k + 1;
    }
    m
}

/// Whether every broadcast step has as many strides as dims.
pub open spec fn bc_steps_matched(steps: Seq<ChainStep>) -> bool {
    forall|k: int| 0 <= k < steps.len() ==> match #[trigger] steps[k] {
        ChainStep::BinaryBc { dims, strides, .. } => dims@.len() == strides@.len(),
        _ => true,
    }
}

/// One divmod line of step `k`'s broadcast offset for dim `d`.
pub open spec fn chain_divmod_line(k: int, d: int) -> Seq<char> {
    let ks = decimal(k as nat);
    let ds = decimal(d as nat);
    "    c"@ + ks + " = rem"@ + ks + " % d"@ + ks + "_"@ + ds + "; rem"@ + ks + " /= d"@ + ks + "_"@ + ds + "; off"@ + ks + " += c"@ + ks
        + " * s"@ + ks + "_"@ + ds + ";\n"@
}

/// The line of step `k` that computes `v<k+1>` from `v<k>` with expression
/// `expr`, reading operand `y` as `operand` (empty for unary steps).
pub open spec fn chain_value_line(k: int, operand: Seq<char>, expr: Seq<char>) -> Seq<char> {
    "    float v"@ + decimal((k + 1) as nat) + operand + decimal(k as nat) + "; v"@ + decimal((k + 1) as nat) + " = "@ + expr + "; }\n"@
}

/// The offset declarations of broadcast step `k`.
pub open spec fn bc_header(k: int) -> Seq<char> {
    let ks = decimal(k as nat);
    "    unsigned int rem"@ + ks + " = i; unsigned int off"@ + ks + " = 0; unsigned int c"@ + ks + ";\n"@
}

/// The body lines of step `k` of a chain.
pub open spec fn chain_step_text(k: int, s: ChainStep) -> Seq<char> {
    let ks = decimal(k as nat);
    match s {
        ChainStep::Unary(kind) => chain_value_line(k, "; { float v = v"@, unary_expr_text(kind)),
        ChainStep::Binary { kind, other } => "    float v"@ + decimal((k + 1) as nat) + "; { float x = v"@ + ks + "; float y = x"@
            + decimal(other as nat) + "[i]; v"@ + decimal((k + 1) as nat) + " = "@ + binary_expr_text(kind) + "; }\n"@,
        ChainStep::BinaryBc { kind, other, dims, .. } => bc_header(k) + concat_down(|d: int| chain_divmod_line(k, d), dims@.len() as int)
            + bc_value_line(k, kind, other as int),
    }
}

/// The signature parameters for the broadcast dims/strides of step `k`.
pub open spec fn chain_step_params(k: int, s: ChainStep) -> Seq<char> {
    match s {
        ChainStep::BinaryBc { dims, .. } => concat_up(
            |d: int| ", unsigned int d"@ + decimal(k as nat) + "_"@ + decimal(d as nat) + ", unsigned int s"@ + decimal(k as nat) + "_"@ + decimal(d as nat),
            0,
            dims@.len() as int,
        ),
        _ => seq![],
    }
}

/// The source text of [`chain_source`].
pub open spec fn chain_text(steps: Seq<ChainStep>) -> Seq<char> {
    "extern \"C\" __global__ void "@ + KERNEL_NAME@ + "(const float* x0"@
        + concat_up(|j: int| ", const float* x"@ + decimal(j as nat), 1, inputs_of(steps, steps.len() as int))
        + concat_up(|k: int| chain_step_params(k, steps[k]), 0, steps.len() as int)
        + ", float* out, unsigned int n) {\n    unsigned int i = blockIdx.x * blockDim.x + threadIdx.x;\n    if (i >= n) return;\n    float v0 = x0[i];\n"@
        + concat_up(|k: int| chain_step_text(k, steps[k]), 0, steps.len() as int) + "    out[i] = v"@ + decimal(steps.len() as nat)
        + ";\n}\n"@
}

/// Appends one divmod line of step `k` for dim `d`.
fn push_chain_divmod(s: &mut String, k: usize, d: usize)
    ensures
        final(s)@ == old(s)@ + chain_divmod_line(k as int, d as int),
{
    let mut t = String::from_str("    c");
    push_decimal(&mut t, k as u64);
    t.append(" = rem");
    push_decimal(&mut t, k as u64);
    t.append(" % d");
    push_decimal(&mut t, k as u64);
    t.append("_");
    push_decimal(&mut t, d as u64);
    t.append("; rem");
    push_decimal(&mut t, k as u64);
    t.append(" /= d");
    push_decimal(&mut t, k as u64);
    t.append("_");
    push_decimal(&mut t, d as u64);
    t.append("; off");
    push_decimal(&mut t, k as u64);
    t.append(" += c");
    push_decimal(&mut t, k as u64);
    t.append(" * s");
    push_decimal(&mut t, k as u64);
    t.append("_");
    push_decimal(&mut t, d as u64);
    t.append(";\n");
    s.append(t.as_str());
}

/// Appends the line of a unary step `k`.
fn push_unary_step(s: &mut String, k: usize, kind: &UnaryKind)
    requires
        k < usize::MAX,
    ensures
        final(s)@ == old(s)@ + chain_step_text(k as int, ChainStep::Unary(*kind)),
{
    let mut t = String::from_str("    float v");
    push_decimal(&mut t, (k + 1) as u64);
    t.append("; { float v = v");
    push_decimal(&mut t, k as u64);
    t.append("; v");
    push_decimal(&mut t, (k + 1) as u64);
    t.append(" = ");
    let e = unary_expr(kind);
    t.append(e.as_str());
    t.append("; }\n");
    s.append(t.as_str());
}

/// Appends the line of an elementwise binary step `k`.
fn push_binary_step(s: &mut String, k: usize, kind: BinaryKind, other: usize)
    requires
        k < usize::MAX,
    ensures
        final(s)@ == old(s)@ + chain_step_text(k as int, ChainStep::Binary { kind, other }),
{
    let mut t = String::from_str("    float v");
    push_decimal(&mut t, (k + 1) as u64);
    t.append("; { float x = v");
    push_decimal(&mut t, k as u64);
    t.append("; float y = x");
    push_decimal(&mut t, other as u64);
    t.append("[i]; v");
    push_decimal(&mut t, (k + 1) as u64);
    t.append(" = ");
    t.append(binary_expr(kind));
    t.append("; }\n");
    s.append(t.as_str());
}

/// Appends the divmod lines of broadcast step `k` over `rank` dims, innermost first.
fn push_bc_divmod(s: &mut String, k: usize, rank: usize)
    ensures
        final(s)@ == old(s)@ + concat_down(|d: int| chain_divmod_line(k as int, d), rank as int),
{
    let ghost f = |d: int| chain_divmod_line(k as int, d);
    let ghost start = s@;
    let mut j: usize = rank;
    while j > 0
        invariant
            j <= rank,
            f == (|d: int| chain_divmod_line(k as int, d)),
            s@ + concat_down(f, j as int) == start + concat_down(f, rank as int),
        decreases j,
    {
        let d = j - 1;
        let ghost before = s@;
        push_chain_divmod(s, k, d);
        assert(concat_down(f, j as int) == f(d as int) + concat_down(f, d as int));
        assert(s@ + concat_down(f, d as int) =~= before + concat_down(f, j as int));
        j = d;
    }
    assert(s@ + concat_down(f, 0) =~= s@);
}

/// The value line of broadcast step `k`.
pub open spec fn bc_value_line(k: int, kind: BinaryKind, other: int) -> Seq<char> {
    let ks = decimal(k as nat);
    "    float v"@ + decimal((k + 1) as nat) + "; { float x = v"@ + ks + "; float y = x"@ + decimal(other as nat) + "[off"@ + ks + "]; v"@
        + decimal((k + 1) as nat) + " = "@ + binary_expr_text(kind) + "; }\n"@
}

/// Appends the value line of broadcast step `k`.
fn push_bc_value(s: &mut String, k: usize, kind: BinaryKind, other: usize)
    requires
        k < usize::MAX,
    ensures
        final(s)@ == old(s)@ + bc_value_line(k as int, kind, other as int),
{
    let mut t = String::from_str("    float v");
    push_decimal(&mut t, (k + 1) as u64);
    t.append("; { float x = v");
    push_decimal(&mut t, k as u64);
    t.append("; float y = x");
    push_decimal(&mut t, other as u64);
    t.append("[off");
    push_decimal(&mut t, k as u64);
    t.append("]; v");
    push_decimal(&mut t, (k + 1) as u64);
    t.append(" = ");
    t.append(binary_expr(kind));
    t.append("; }\n");
    s.append(t.as_str());
}

/// Appends the body lines of step `k`.
fn push_chain_step(s: &mut String, k: usize, step: &ChainStep)
    requires
        k < usize::MAX,
    ensures
        final(s)@ == old(s)@ + chain_step_text(k as int, *step),
{
    match step {
        ChainStep::Unary(kind) => push_unary_step(s, k, kind),
        ChainStep::Binary { kind, other } => push_binary_step(s, k, *kind, *other),
        ChainStep::BinaryBc { kind, other, dims, .. } => {
            let mut t = String::from_str("    unsigned int rem");
            push_decimal(&mut t, k as u64);
            t.append(" = i; unsigned int off");
            push_decimal(&mut t, k as u64);
            t.append(" = 0; unsigned int c");
            push_decimal(&mut t, k as u64);
            t.append(";\n");
            push_bc_divmod(&mut t, k, dims.len());
            push_bc_value(&mut t, k, *kind, *other);
            s.append(t.as_str());
        },
    }
}

/// One nvrtc kernel evaluating a whole pointwise chain: intermediates live in
/// local floats (registers), never in global memory. Source text is derived
/// deterministically from the steps (including each broadcast rank); dims and
/// strides stay runtime args. Step k reads step k-1's value; every expression
/// builder is reused verbatim by binding its expected variable name (`v`,
/// `x`, `y`) to a fresh local.
pub fn chain_source(steps: &[ChainStep]) -> (s: String)
    requires
        steps@.len() > 0,
        steps@.len() < usize::MAX,
        operands_bounded(steps@),
        bc_steps_matched(steps@),
    ensures
        s@ == chain_text(steps@),
{
    let inputs = chain_input_count(steps);
    let mut s = String::from_str("extern \"C\" __global__ void ");
    s.append(KERNEL_NAME);
    s.append("(const float* x0");
    let ghost fi = |j: int| ", const float* x"@ + decimal(j as nat);
    let ghost s0 = s@;
    let mut j: usize = 1;
    while j < inputs
        invariant
            1 <= j <= inputs || (j == 1 && inputs < 1),
            fi == (|j: int| ", const float* x"@ + decimal(j as nat)),
            s@ == s0 + concat_up(fi, 1, j as int),
        decreases inputs - j,
    {
        s.append(", const float* x");
        push_decimal(&mut s, j as u64);
        assert(concat_up(fi, 1, j + 1) == concat_up(fi, 1, j as int) + fi(j as int));
        j = j + 1;
    }
    assert(concat_up(fi, 1, j as int) == concat_up(fi, 1, inputs as int)) by {
        if inputs < 1 {
            assert(concat_up(fi, 1, 1) == Seq::<char>::empty());
            assert(concat_up(fi, 1, inputs as int) == Seq::<char>::empty());
        }
    }
    let ghost fp = |k: int| chain_step_params(k, steps@[k]);
    let ghost s1 = s@;
    let mut k: usize = 0;
    while k < steps.len()
        invariant
            k <= steps@.len(),
            bc_steps_matched(steps@),
            fp == (|k: int| chain_step_params(k, steps@[k])),
            s@ == s1 + concat_up(fp, 0, k as int),
        decreases steps@.len() - k,
    {
        let ghost before = s@;
        match &steps[k] {
            ChainStep::BinaryBc { dims, .. } => {
                let ghost fd = |d: int| ", unsigned int d"@ + decimal(k as nat) + "_"@ + decimal(d as nat) + ", unsigned int s"@ + decimal(k as nat) + "_"@ + decimal(d as nat);
                let mut d: usize = 0;
                while d < dims.len()
                    invariant
                        d <= dims@.len(),
                        fd == (|d: int| ", unsigned int d"@ + decimal(k as nat) + "_"@ + decimal(d as nat) + ", unsigned int s"@ + decimal(k as nat) + "_"@ + decimal(d as nat)),
                        s@ == before + concat_up(fd, 0, d as int),
                    decreases dims@.len() - d,
                {
                    s.append(", unsigned int d");
                    push_decimal(&mut s, k as u64);
                    s.append("_");
                    push_decimal(&mut s, d as u64);
                    s.append(", unsigned int s");
                    push_decimal(&mut s, k as u64);
                    s.append("_");
                    push_decimal(&mut s, d as u64);
                    assert(concat_up(fd, 0, d + 1) == concat_up(fd, 0, d as int) + fd(d as int));
                    d = d + 1;
                }
                assert(fp(k as int) == concat_up(fd, 0, dims@.len() as int));
            },
            _ => {
                assert(fp(k as int) == Seq::<char>::empty());
            },
        }
        assert(concat_up(fp, 0, k + 1) == concat_up(fp, 0, k as int) + fp(k as int));
        k = k + 1;
    }
    s.append(", float* out, unsigned int n) {\n    unsigned int i = blockIdx.x * blockDim.x + threadIdx.x;\n    if (i >= n) return;\n    float v0 = x0[i];\n");
    let ghost fb = |k: int| chain_step_text(k, steps@[k]);
    let ghost s2 = s@;
    let mut k: usize = 0;
    while k < steps.len()
        invariant
            k <= steps@.len() < usize::MAX,
            fb == (|k: int| chain_step_text(k, steps@[k])),
            s@ == s2 + concat_up(fb, 0, k as int),
        decreases steps@.len() - k,
    {
        push_chain_step(&mut s, k, &steps[k]);
        assert(concat_up(fb, 0, k + 1) == concat_up(fb, 0, k as int) + fb(k as int));
        k = k + 1;
    }
    s.append("    out[i] = v");
    push_decimal(&mut s, steps.len() as u64);
    s.append(";\n}\n");
    s
}

/// The broadcast arguments of the steps: each broadcast step's dims and
/// strides interleaved (dim, stride per rank), in signature order.
pub open spec fn bc_args_of(steps: Seq<ChainStep>, n: int) -> Seq<u32>
    decreases n,
{
    if n <= 0 {
        seq![]
    } else {
        bc_args_of(steps, n - 1) + match steps[n - 1] {
            ChainStep::BinaryBc { dims, strides, .. } => Seq::new(2 * dims@.len(), |x: int| if x % 2 == 0 {
                dims@[x / 2]
            } else {
                strides@[x / 2]
            }),
            _ => seq![],
        }
    }
}

/// Host-side companion of [`chain_source`]: the flattened per-step broadcast
/// kernel arguments (interleaved dim,stride per rank of each BinaryBc step),
/// in signature order.
pub fn chain_bc_args(steps: &[ChainStep]) -> (args: Vec<u32>)
    requires
        bc_steps_matched(steps@),
    ensures
        args@ == bc_args_of(steps@, steps@.len() as int),
{
    let mut args: Vec<u32> = Vec::new();
    let mut k: usize = 0;
    while k < steps.len()
        invariant
            k <= steps@.len(),
            bc_steps_matched(steps@),
            args@ == bc_args_of(steps@, k as int),
        decreases steps@.len() - k,
    {
        let ghost before = args@;
        match &steps[k] {
            ChainStep::BinaryBc { dims, strides, .. } => {
                assert(dims@.len() == strides@.len());
                let ghost want = Seq::new(2 * dims@.len(), |x: int| if x % 2 == 0 {
                    dims@[x / 2]
                } else {
                    strides@[x / 2]
                });
                let mut d: usize = 0;
                while d < dims.len()
                    invariant
                        d <= dims@.len() == strides@.len(),
                        want == Seq::new(2 * dims@.len(), |x: int| if x % 2 == 0 {
                            dims@[x / 2]
                        } else {
                            strides@[x / 2]
                        }),
                        args@ == before + want.subrange(0, 2 * d),
                    decreases dims@.len() - d,
                {
                    args.push(dims[d]);
                    args.push(strides[d]);
                    assert(want.subrange(0, 2 * d + 2) =~= want.subrange(0, 2 * d).push(dims@[d as int]).push(strides@[d as int]));
                    d = d + 1;
                }
                assert(want.subrange(0, 2 * d) =~= want);
            },
            _ => {
                assert(args@ =~= before + Seq::<u32>::empty());
            },
        }
        k = k + 1;
    }
    args
}

} // verus!
