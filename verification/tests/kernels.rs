//! Kernel source generation, launch geometry and broadcast strides.

use ferro::kernels::{
    adamw_step_source, affine_inplace_source, axpy_inplace_source, binary_bc_source, binary_expr,
    binary_inplace_source, binary_source, broadcast_strides, chain_bc_args, chain_input_count,
    chain_source, copy_source, fill_source, gather_source, reduce_finalize_source, reduce_grid,
    reduce_partial_source, sgd_step_source, softmax_apply_source, softmax_row_stats_source,
    sum_dim_source, unary_expr, unary_source, BinaryKind, CScalar, ChainStep, ReduceKind,
    UnaryKind, KERNEL_NAME, REDUCE_BLOCK, REDUCE_MAX_BLOCKS,
};

/// C spelling of an f32 operand, as the application spells scalars.
fn c_f32(v: f32) -> CScalar {
    let text = if v.is_nan() {
        "__int_as_float(0x7fc00000)".to_string()
    } else if v == f32::INFINITY {
        "__int_as_float(0x7f800000)".to_string()
    } else if v == f32::NEG_INFINITY {
        "__int_as_float(0xff800000)".to_string()
    } else {
        format!("{v:?}f")
    };
    CScalar { text }
}

fn powf(p: f32) -> UnaryKind {
    UnaryKind::Powf(c_f32(p))
}

fn clamp(min: f32, max: f32) -> UnaryKind {
    UnaryKind::Clamp { min: c_f32(min), max: c_f32(max) }
}

#[test]
fn unary_exprs_cover_every_kind() {
    assert_eq!(unary_expr(&UnaryKind::Neg), "-v");
    assert_eq!(
        unary_expr(&UnaryKind::Relu),
        "((v > 0.0f || isnan(v)) ? v : 0.0f)"
    );
    assert_eq!(unary_expr(&UnaryKind::Exp), "expf(v)");
    assert_eq!(unary_expr(&UnaryKind::Sigmoid), "1.0f / (1.0f + expf(-v))");
    assert_eq!(unary_expr(&UnaryKind::Tanh), "tanhf(v)");
    assert_eq!(unary_expr(&UnaryKind::Sqrt), "sqrtf(v)");
    assert_eq!(unary_expr(&UnaryKind::Abs), "fabsf(v)");
    assert_eq!(unary_expr(&UnaryKind::Log), "logf(v)");
    assert_eq!(unary_expr(&powf(2.5)), "powf(v, 2.5f)");
    assert_eq!(
        unary_expr(&clamp(-1.0, 2.0)),
        "(isnan(v) ? v : fminf(fmaxf(v, -1.0f), 2.0f))"
    );
    assert_eq!(unary_expr(&UnaryKind::Gtz), "(v > 0.0f) ? 1.0f : 0.0f");
    assert_eq!(
        unary_expr(&UnaryKind::Gelu),
        "0.5f * v * (1.0f + tanhf(0.7978846f * (v + 0.044715f * v * v * v)))"
    );
    assert_eq!(
        unary_expr(&UnaryKind::GeluErf),
        "0.5f * v * (1.0f + erff(v * 0.70710678f))"
    );
    assert_eq!(
        unary_expr(&UnaryKind::GeluErfGrad),
        "0.5f * (1.0f + erff(v * 0.70710678f)) + v * expf(-0.5f * v * v) * 0.39894228f"
    );
    assert_eq!(unary_expr(&UnaryKind::Silu), "v / (1.0f + expf(-v))");
}

#[test]
fn softmax_sources_form_a_two_pass_pipeline() {
    let stats = softmax_row_stats_source();
    assert!(stats.contains(r#"extern "C" __global__ void ferro_kernel(const float* x, float* stats, unsigned int cols)"#));
    assert!(stats.contains("stats[2 * blockIdx.x] = m;"));
    assert!(stats.contains("stats[2 * blockIdx.x + 1] = sh[0];"));
    // log_softmax and softmax share the stats pass but differ in apply.
    let (soft, lsoft) = (softmax_apply_source(false), softmax_apply_source(true));
    assert!(soft.contains("out[i] = expf(x[i] - m) / s;"));
    assert!(lsoft.contains("out[i] = x[i] - (m + logf(s));"));
    assert_ne!(soft, lsoft);
}

#[test]
fn scalar_formatting_handles_nonfinite_and_exponents() {
    assert_eq!(
        unary_expr(&clamp(0.0, f32::INFINITY)),
        "(isnan(v) ? v : fminf(fmaxf(v, 0.0f), __int_as_float(0x7f800000)))"
    );
    assert_eq!(
        unary_expr(&clamp(f32::NEG_INFINITY, 1e10)),
        "(isnan(v) ? v : fminf(fmaxf(v, __int_as_float(0xff800000)), 10000000000.0f))"
    );
    assert_eq!(
        unary_expr(&powf(f32::NAN)),
        "powf(v, __int_as_float(0x7fc00000))"
    );
}

#[test]
fn binary_exprs_cover_every_kind() {
    assert_eq!(binary_expr(BinaryKind::Add), "x + y");
    assert_eq!(binary_expr(BinaryKind::Sub), "x - y");
    assert_eq!(binary_expr(BinaryKind::Mul), "x * y");
    assert_eq!(binary_expr(BinaryKind::Div), "x / y");
}

#[test]
fn sources_declare_the_exported_kernel() {
    let src = unary_source(&UnaryKind::Relu);
    assert!(src.contains(
        r#"extern "C" __global__ void ferro_kernel(const float* x, float* out, unsigned int n)"#
    ));
    assert!(src.contains("out[i] = ((v > 0.0f || isnan(v)) ? v : 0.0f);"));
    let src = binary_source(BinaryKind::Div);
    assert!(src.contains(r#"extern "C" __global__ void ferro_kernel(const float* a, const float* b, float* out, unsigned int n)"#));
    assert!(src.contains("out[i] = x / y;"));
}

#[test]
fn inplace_sources_declare_the_exported_kernel_and_mutate_dst() {
    let src = affine_inplace_source();
    assert!(src.contains(
        r#"extern "C" __global__ void ferro_kernel(float* dst, unsigned int n, float mul, float add)"#
    ));
    assert!(src.contains("dst[i] = __fadd_rn(__fmul_rn(dst[i], mul), add);"));

    let src = binary_inplace_source(BinaryKind::Sub);
    assert!(src.contains(
        r#"extern "C" __global__ void ferro_kernel(float* dst, const float* src, unsigned int n)"#
    ));
    assert!(src.contains("dst[i] = x - y;"));

    let src = axpy_inplace_source();
    assert!(src.contains("dst[i] = __fadd_rn(dst[i], __fmul_rn(alpha, src[i]));"));
}

#[test]
fn fused_step_sources_take_scalars_as_parameters() {
    // Scalars as kernel parameters: no per-step uploads, and one compiled
    // function per optimizer regardless of lr/beta/bias-correction values.
    let src = sgd_step_source();
    assert!(src.contains(
        r#"(float* p, float* v, const float* g, unsigned int n, float lr, float momentum, int nesterov)"#
    ));
    // Explicit rn intrinsics keep fmad contraction from changing rounding.
    assert!(src.contains("__fadd_rn(__fmul_rn(v[i], momentum), g[i])"));
    assert!(src.contains("p[i] = __fsub_rn(p[i], __fmul_rn(d, lr));"));

    let src = adamw_step_source();
    assert!(src.contains(
        "float lr, float beta1, float beta2, float bc1, float bc2, float eps, float wd)"
    ));
    assert!(src.contains("__fsqrt_rn(__fdiv_rn(vi, bc2))"));
    // Decoupled decay reads the pre-update parameter, gated so wd == 0 is
    // exactly Adam.
    assert!(src.contains("if (wd != 0.0f) upd = __fadd_rn(upd, __fmul_rn(wd, p[i]));"));
}

#[test]
fn gtz_source_is_the_relu_gradient_mask() {
    let src = unary_source(&UnaryKind::Gtz);
    assert!(src.contains("out[i] = (v > 0.0f) ? 1.0f : 0.0f;"));
}

#[test]
fn broadcast_binary_source_decomposes_flat_index() {
    let src = binary_bc_source(BinaryKind::Add, 2);
    assert!(src.contains(r#"extern "C" __global__ void ferro_kernel(const float* a, const float* b, float* out, unsigned int n, unsigned int d0, unsigned int d1, unsigned int sa0, unsigned int sa1, unsigned int sb0, unsigned int sb1)"#));
    // Innermost dim is peeled first.
    let d1 = src.find("c = rem % d1").unwrap();
    let d0 = src.find("c = rem % d0").unwrap();
    assert!(d1 < d0);
    assert!(src.contains("ia += c * sa1; ib += c * sb1;"));
    assert!(src.contains("out[i] = x + y;"));
    // Rank (not shape) is baked into the source, so the cache keys on it.
    assert_ne!(binary_bc_source(BinaryKind::Add, 1), src);
    assert_ne!(binary_bc_source(BinaryKind::Mul, 2), src);
}

#[test]
fn reduce_sources_form_a_two_pass_pipeline() {
    let partial = reduce_partial_source();
    assert!(partial.contains(
        r#"extern "C" __global__ void ferro_kernel(const float* x, float* out, unsigned int n)"#
    ));
    assert!(partial.contains("__shared__ float sh[256];"));
    assert!(partial.contains("out[blockIdx.x] = sh[0];"));
    // Finalize is generated per kind and divides by the original count for Mean.
    assert_ne!(
        reduce_finalize_source(ReduceKind::Sum),
        reduce_finalize_source(ReduceKind::Mean)
    );
    assert!(reduce_finalize_source(ReduceKind::Sum).contains("out[0] = sh[0];"));
    assert!(reduce_finalize_source(ReduceKind::Mean).contains("out[0] = sh[0] / (float)total;"));
}

#[test]
fn reduce_grid_caps_blocks_and_handles_small_n() {
    assert_eq!(reduce_grid(0), 0);
    assert_eq!(reduce_grid(1), 1);
    assert_eq!(reduce_grid(255), 1);
    assert_eq!(reduce_grid(256), 1);
    assert_eq!(reduce_grid(257), 2);
    assert_eq!(reduce_grid(u32::MAX as usize), 2048);
}

#[test]
fn sum_dim_source_uses_outer_inner_decomposition() {
    let src = sum_dim_source();
    assert!(src.contains(r#"extern "C" __global__ void ferro_kernel(const float* x, float* out, unsigned int n, unsigned int red, unsigned int inner)"#));
    assert!(src.contains("acc += x[(o * red + k) * inner + r];"));
}

#[test]
fn fill_source_writes_the_parameter_value() {
    let src = fill_source();
    assert!(src.contains(
        r#"extern "C" __global__ void ferro_kernel(float* out, unsigned int n, float value)"#
    ));
    assert!(src.contains("out[i] = value;"));
}

#[test]
fn broadcast_strides_follow_numpy_rules() {
    assert_eq!(broadcast_strides(&[2, 3], &[2, 3]), vec![3, 1]);
    assert_eq!(broadcast_strides(&[3], &[2, 3]), vec![0, 1]);
    assert_eq!(broadcast_strides(&[2, 1], &[2, 3]), vec![1, 0]);
    assert_eq!(broadcast_strides(&[], &[2, 3]), vec![0, 0]);
    assert_eq!(broadcast_strides(&[1, 3], &[4, 2, 3]), vec![0, 0, 1]);
    // Rank-0 output is padded to a single rank-1 element.
    assert_eq!(broadcast_strides(&[], &[]), vec![0]);
}

// Host simulation of the generated kernel's index arithmetic: divmod over
// the output shape with padded strides must reproduce numpy broadcasting.
#[test]
fn broadcast_index_math_matches_reference() {
    let (sa, sb, out) = (vec![2usize, 1], vec![3usize], vec![2usize, 3]);
    let a = [10.0f32, 20.0];
    let b = [1.0f32, 2.0, 3.0];
    let stra = broadcast_strides(&sa, &out);
    let strb = broadcast_strides(&sb, &out);
    let n: usize = out.iter().product();
    let mut got = Vec::new();
    for i in 0..n {
        let (mut rem, mut ia, mut ib) = (i as u32, 0u32, 0u32);
        for d in (0..out.len()).rev() {
            let c = rem % out[d] as u32;
            rem /= out[d] as u32;
            ia += c * stra[d];
            ib += c * strb[d];
        }
        got.push(a[ia as usize] + b[ib as usize]);
    }
    assert_eq!(got, vec![11.0, 12.0, 13.0, 21.0, 22.0, 23.0]);
}

#[test]
fn parametrized_kinds_generate_distinct_sources() {
    assert_ne!(unary_source(&powf(2.0)), unary_source(&powf(3.0)));
    assert_ne!(unary_source(&clamp(0.0, 1.0)), unary_source(&clamp(0.0, 2.0)));
}

fn gelu_bias_chain() -> Vec<ChainStep> {
    vec![
        ChainStep::Unary(UnaryKind::Gelu),
        ChainStep::BinaryBc {
            kind: BinaryKind::Add,
            other: 1,
            dims: vec![4, 8],
            strides: vec![0, 1],
        },
    ]
}

#[test]
fn chain_source_threads_expressions_into_one_kernel() {
    let src = chain_source(&gelu_bias_chain());
    assert!(src.contains(r#"extern "C" __global__ void ferro_kernel(const float* x0, const float* x1, unsigned int d1_0, unsigned int s1_0, unsigned int d1_1, unsigned int s1_1, float* out, unsigned int n)"#));
    assert!(src.contains("float v0 = x0[i];"));
    assert!(src.contains("float v1; { float v = v0; v1 = 0.5f * v * (1.0f + tanhf(0.7978846f * (v + 0.044715f * v * v * v))); }"));
    assert!(src.contains("c1 = rem1 % d1_1; rem1 /= d1_1; off1 += c1 * s1_1;"));
    assert!(src.contains("c1 = rem1 % d1_0; rem1 /= d1_0; off1 += c1 * s1_0;"));
    assert!(src.contains("float y = x1[off1];"));
    assert!(src.contains("v2 = x + y;"));
    assert!(src.ends_with("out[i] = v2;\n}\n"));
}

#[test]
fn chain_source_keys_on_steps_and_bc_rank() {
    let base = chain_source(&gelu_bias_chain());
    assert_eq!(base, chain_source(&gelu_bias_chain()));
    let elementwise = ChainStep::Binary {
        kind: BinaryKind::Add,
        other: 1,
    };
    assert_ne!(base, chain_source(&[elementwise.clone()]));
    assert_ne!(
        chain_source(&[
            ChainStep::Unary(UnaryKind::Relu),
            ChainStep::Binary {
                kind: BinaryKind::Mul,
                other: 1
            },
            ChainStep::Binary {
                kind: BinaryKind::Add,
                other: 2
            },
        ]),
        chain_source(&[elementwise])
    );
}

#[test]
fn chain_bc_args_flatten_in_signature_order() {
    assert_eq!(chain_bc_args(&gelu_bias_chain()), vec![4, 0, 8, 1]);
    assert!(chain_bc_args(&[ChainStep::Unary(UnaryKind::Relu)]).is_empty());
}

#[test]
fn chain_input_count_is_one_past_the_highest_operand() {
    assert_eq!(chain_input_count(&[ChainStep::Unary(UnaryKind::Exp)]), 1);
    assert_eq!(chain_input_count(&gelu_bias_chain()), 2);
    let steps = [
        ChainStep::Binary { kind: BinaryKind::Mul, other: 3 },
        ChainStep::Binary { kind: BinaryKind::Add, other: 1 },
    ];
    assert_eq!(chain_input_count(&steps), 4);
    let src = chain_source(&steps);
    assert!(src.contains("(const float* x0, const float* x1, const float* x2, const float* x3, float* out, unsigned int n)"));
}

#[test]
fn whole_sources_are_exact() {
    assert_eq!(
        copy_source(),
        "extern \"C\" __global__ void ferro_kernel(float* out, const float* src, unsigned int n) {\n    unsigned int i = blockIdx.x * blockDim.x + threadIdx.x;\n    if (i < n) out[i] = src[i];\n}\n"
    );
    assert_eq!(
        gather_source(),
        "extern \"C\" __global__ void ferro_kernel(const long long* idx, const float* w, float* out, unsigned int inner, unsigned int n) {\n    unsigned int i = blockIdx.x * blockDim.x + threadIdx.x;\n    if (i >= n) return;\n    unsigned int o = i / inner;\n    out[i] = w[idx[o] * inner + (i % inner)];\n}\n"
    );
    assert_eq!(
        chain_source(&[ChainStep::Unary(UnaryKind::Neg)]),
        "extern \"C\" __global__ void ferro_kernel(const float* x0, float* out, unsigned int n) {\n    unsigned int i = blockIdx.x * blockDim.x + threadIdx.x;\n    if (i >= n) return;\n    float v0 = x0[i];\n    float v1; { float v = v0; v1 = -v; }\n    out[i] = v1;\n}\n"
    );
    assert_eq!(KERNEL_NAME, "ferro_kernel");
    assert_eq!((REDUCE_BLOCK, REDUCE_MAX_BLOCKS), (256, 2048));
}

#[test]
fn reduce_grid_rounds_up_on_the_full_count() {
    assert_eq!(reduce_grid(512), 2);
    assert_eq!(reduce_grid(513), 3);
    assert_eq!(reduce_grid(2048 * 256), 2048);
    assert_eq!(reduce_grid(2048 * 256 + 1), 2048);
    assert_eq!(reduce_grid((1usize << 32) + 300), 2048);
    assert_eq!(reduce_grid(1usize << 32), 2048);
}

#[test]
fn broadcast_strides_of_a_scalar_input_and_unit_dims() {
    assert_eq!(broadcast_strides(&[1], &[5]), vec![0]);
    assert_eq!(broadcast_strides(&[4, 1, 5], &[4, 3, 5]), vec![5, 0, 1]);
    assert_eq!(broadcast_strides(&[2, 3, 4], &[2, 3, 4]), vec![12, 4, 1]);
}

// Host simulation of the generated kernel's full dataflow (locals carry
// values between steps; bc offsets decompose i over dims with padded
// strides): must equal the unfused per-op reference exactly.
#[test]
fn chain_dataflow_simulates_the_unfused_reference() {
    let x: Vec<f32> = (-32..32).map(|i| i as f32 * 0.125).collect();
    let bias: Vec<f32> = [0.5, -0.25, 1.0, 0.0, 2.0, -1.5, 0.75, 3.0].to_vec();
    let (rows, cols) = (8usize, 8usize);
    let mut got = Vec::with_capacity(rows * cols);
    for i in 0..rows * cols {
        let v0 = x[i];
        let v1 = 0.5f32 * v0 * (1.0 + (0.7978846f32 * (v0 + 0.044715 * v0 * v0 * v0)).tanh());
        let mut rem = i;
        let mut off = 0usize;
        // Innermost dim peeled first, matching chain_source's divmod.
        for (d, s) in [(cols, 1usize), (rows, 0usize)] {
            let c = rem % d;
            rem /= d;
            off += c * s;
        }
        got.push(v1 + bias[off]);
    }
    for (i, g) in got.iter().enumerate() {
        let gelu = 0.5f32 * x[i] * (1.0 + (0.7978846f32 * (x[i] + 0.044715 * x[i] * x[i] * x[i])).tanh());
        assert_eq!(*g, gelu + bias[i % cols]);
    }
}
