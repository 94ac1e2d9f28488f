//! Launch geometry, operation plans and the row-major GEMM mapping.

use ferro::launch::{
    blas_arg, bmm_plan, broadcast_dims, check_same_len, elementwise_grid, elementwise_launch, gather_plan,
    kernel_arg, matmul_plan, reduce_plan, row_major_gemm, row_major_strided_gemm, row_softmax_plan, sum_dim_plan,
    GemmDims, Grid, LimitError, ReducePlan, SoftmaxPlan, SumDimLaunch, SumDimPlan,
};

/// Host reference for a column-major sgemm with alpha 1 and beta 0:
/// `C[i + j*ldc] = sum_p op(A)(i,p) * op(B)(p,j)`, where op(X)(i,p) reads
/// `X[i + p*ld]`, or `X[p + i*ld]` when transposed.
fn colmajor_sgemm(cfg: &GemmDims, a: &[f32], b: &[f32], c: &mut [f32]) {
    let (m, n, k) = (cfg.m as usize, cfg.n as usize, cfg.k as usize);
    let (lda, ldb, ldc) = (cfg.lda as usize, cfg.ldb as usize, cfg.ldc as usize);
    for j in 0..n {
        for i in 0..m {
            let mut acc = 0.0;
            for p in 0..k {
                let av = if cfg.transa { a[p + i * lda] } else { a[i + p * lda] };
                let bv = if cfg.transb { b[j + p * ldb] } else { b[p + j * ldb] };
                acc += av * bv;
            }
            c[i + j * ldc] = 1.0 * acc + 0.0 * c[i + j * ldc];
        }
    }
}

fn naive_matmul(a: &[f32], b: &[f32], m: usize, k: usize, n: usize) -> Vec<f32> {
    let mut out = vec![0.0f32; m * n];
    for i in 0..m {
        for j in 0..n {
            let mut acc = 0.0f32;
            for p in 0..k {
                acc += a[i * k + p] * b[p * n + j];
            }
            out[i * n + j] = acc;
        }
    }
    out
}

// Store a row-major (rows, cols) matrix as its (cols, rows) transpose.
fn transpose(v: &[f32], rows: usize, cols: usize) -> Vec<f32> {
    let mut out = vec![0f32; v.len()];
    for i in 0..rows {
        for j in 0..cols {
            out[j * rows + i] = v[i * cols + j];
        }
    }
    out
}

#[test]
fn sgemm_mapping_matches_row_major_matmul() {
    for &(m, k, n) in &[(1usize, 1usize, 1usize), (2, 3, 4), (5, 2, 3), (1, 4, 2)] {
        let a: Vec<f32> = (0..m * k).map(|i| i as f32 * 0.5 - 1.0).collect();
        let b: Vec<f32> = (0..k * n).map(|i| 2.0 - i as f32 * 0.25).collect();
        let expected = naive_matmul(&a, &b, m, k, n);
        let cfg = row_major_gemm(m, k, n, false, false);
        let mut c = vec![0.0f32; m * n];
        // Operand swap mirrors the gemm call: b is cuBLAS "A", a is "B".
        colmajor_sgemm(&cfg, &b, &a, &mut c);
        assert_eq!(c, expected, "mapping broken for ({m},{k},{n})");
    }
}

#[test]
fn sgemm_transpose_flags_match_row_major_matmul() {
    for &(m, k, n) in &[(2usize, 3usize, 4usize), (5, 2, 3)] {
        let a: Vec<f32> = (0..m * k).map(|i| i as f32 * 0.5 - 1.0).collect();
        let b: Vec<f32> = (0..k * n).map(|i| 2.0 - i as f32 * 0.25).collect();
        let expected = naive_matmul(&a, &b, m, k, n);
        for &(ta, tb) in &[(false, false), (false, true), (true, false), (true, true)] {
            let sa = if ta { transpose(&a, m, k) } else { a.clone() };
            let sb = if tb { transpose(&b, k, n) } else { b.clone() };
            let cfg = row_major_gemm(m, k, n, ta, tb);
            let mut c = vec![0.0f32; m * n];
            colmajor_sgemm(&cfg, &sb, &sa, &mut c);
            assert_eq!(c, expected, "mapping broken for ({m},{k},{n}) ta={ta} tb={tb}");
        }
    }
}

#[test]
fn strided_batched_cfg_matches_per_slab_single_gemms() {
    fn naive_bmm(a: &[f32], b: &[f32], batch: usize, m: usize, k: usize, n: usize) -> Vec<f32> {
        let mut out = vec![0.0f32; batch * m * n];
        for bi in 0..batch {
            let (ao, bo, co) = (bi * m * k, bi * k * n, bi * m * n);
            for i in 0..m {
                for j in 0..n {
                    let mut acc = 0.0f32;
                    for p in 0..k {
                        acc += a[ao + i * k + p] * b[bo + p * n + j];
                    }
                    out[co + i * n + j] = acc;
                }
            }
        }
        out
    }
    for &(batch, m, k, n) in &[(1usize, 1usize, 1usize, 1usize), (2, 2, 3, 2), (3, 1, 4, 2)] {
        for &(ta, tb) in &[(false, false), (false, true), (true, false)] {
            let a: Vec<f32> = (0..batch * m * k).map(|i| (i as f32 * 0.5 - 1.0).sin()).collect();
            let b: Vec<f32> = (0..batch * k * n).map(|i| 2.0 - i as f32 * 0.25).collect();
            let strided = row_major_strided_gemm(batch, m, k, n, ta, tb);
            assert_eq!(strided.gemm, row_major_gemm(m, k, n, ta, tb));
            assert_eq!(
                (strided.batch, strided.stride_a, strided.stride_b, strided.stride_c),
                (batch as i32, (k * n) as i64, (m * k) as i64, (m * n) as i64)
            );
            let mut per_slab = vec![0.0f32; batch * m * n];
            for bi in 0..batch {
                let (ao, bo, co) = (
                    bi * strided.stride_b as usize,
                    bi * strided.stride_a as usize,
                    bi * strided.stride_c as usize,
                );
                let sa = if ta { transpose(&a[ao..ao + m * k], m, k) } else { a[ao..ao + m * k].to_vec() };
                let sb = if tb { transpose(&b[bo..bo + k * n], k, n) } else { b[bo..bo + k * n].to_vec() };
                let mut c = vec![0.0f32; m * n];
                colmajor_sgemm(&strided.gemm, &sb, &sa, &mut c);
                per_slab[co..co + m * n].copy_from_slice(&c);
            }
            let expected = naive_bmm(&a, &b, batch, m, k, n);
            assert_eq!(per_slab, expected, "strided mapping mismatch b={batch} ({m},{k},{n}) ta={ta} tb={tb}");
        }
    }
}

#[test]
fn gemm_dims_swap_operands_and_extents() {
    assert_eq!(
        row_major_gemm(2, 3, 4, false, false),
        GemmDims { transa: false, transb: false, m: 4, n: 2, k: 3, lda: 4, ldb: 3, ldc: 4 }
    );
    assert_eq!(
        row_major_gemm(2, 3, 4, true, true),
        GemmDims { transa: true, transb: true, m: 4, n: 2, k: 3, lda: 3, ldb: 2, ldc: 4 }
    );
}

#[test]
fn kernel_and_blas_arguments_are_range_checked() {
    assert_eq!(kernel_arg(7), Ok(7));
    assert_eq!(kernel_arg(u32::MAX as usize), Ok(u32::MAX));
    assert_eq!(kernel_arg(1usize << 32), Err(LimitError::ExceedsU32(1usize << 32)));
    assert_eq!(blas_arg(i32::MAX as usize), Ok(i32::MAX));
    assert_eq!(blas_arg(1usize << 31), Err(LimitError::ExceedsI32(1usize << 31)));
    assert_eq!(
        LimitError::ExceedsU32(4294967296).message(),
        "4294967296 elements exceeds the u32 kernel argument limit (4294967295)"
    );
    assert_eq!(LimitError::ExceedsI32(2147483648).message(), "2147483648 exceeds the cuBLAS i32 dimension limit");
    assert_eq!(check_same_len(3, 2), Err(LimitError::LengthMismatch(3, 2)));
    assert_eq!(LimitError::LengthMismatch(3, 2).message(), "length mismatch: 3 vs 2");
    assert!(check_same_len(5, 5).is_ok());
}

#[test]
fn elementwise_grids_round_up() {
    assert_eq!(elementwise_grid(1), Grid { blocks: 1, threads: 1024 });
    assert_eq!(elementwise_grid(1024), Grid { blocks: 1, threads: 1024 });
    assert_eq!(elementwise_grid(1025), Grid { blocks: 2, threads: 1024 });
    assert_eq!(elementwise_grid(u32::MAX), Grid { blocks: 4194304, threads: 1024 });
    assert_eq!(elementwise_launch(0), Ok(None));
    assert_eq!(elementwise_launch(3000), Ok(Some((3000, Grid { blocks: 3, threads: 1024 }))));
    assert_eq!(elementwise_launch(1usize << 33), Err(LimitError::ExceedsU32(1usize << 33)));
}

#[test]
fn reductions_split_into_two_passes() {
    assert_eq!(reduce_plan(0), Ok(ReducePlan::Empty));
    assert_eq!(reduce_plan(1), Ok(ReducePlan::TwoPass { n: 1, blocks: 1 }));
    assert_eq!(reduce_plan(257), Ok(ReducePlan::TwoPass { n: 257, blocks: 2 }));
    assert_eq!(reduce_plan(1 << 20), Ok(ReducePlan::TwoPass { n: 1 << 20, blocks: 2048 }));
    assert_eq!(reduce_plan(1usize << 32), Err(LimitError::ExceedsU32(1usize << 32)));
}

#[test]
fn sum_dim_uses_outer_inner_decomposition() {
    let plan = sum_dim_plan(&vec![2, 3, 4], 1).unwrap();
    assert_eq!(
        plan,
        SumDimPlan {
            outer: 2,
            inner: 4,
            n: 8,
            launch: Some(SumDimLaunch { n: 8, red: 3, inner: 4, grid: Grid { blocks: 1, threads: 1024 } })
        }
    );
    let empty = sum_dim_plan(&vec![2, 0, 3], 0).unwrap();
    assert_eq!((empty.outer, empty.inner, empty.n, empty.launch), (1, 0, 0, None));
    assert_eq!(sum_dim_plan(&vec![1, 1usize << 32, 1], 1), Err(LimitError::ExceedsU32(1usize << 32)));
}

#[test]
fn row_softmax_runs_stats_then_apply() {
    assert_eq!(row_softmax_plan(0, 5), Ok(SoftmaxPlan::Empty { n: 0 }));
    assert_eq!(row_softmax_plan(3, 0), Ok(SoftmaxPlan::Empty { n: 0 }));
    assert_eq!(row_softmax_plan(3, 4), Ok(SoftmaxPlan::TwoPass { n: 12, rows: 3, cols: 4, stats: 6 }));
    assert_eq!(row_softmax_plan(1 << 20, 1 << 20), Err(LimitError::ExceedsU32(1usize << 40)));
}

#[test]
fn gathers_check_the_inner_extent_first() {
    assert_eq!(gather_plan(0, 1usize << 32), Err(LimitError::ExceedsU32(1usize << 32)));
    assert_eq!(gather_plan(0, 4), Ok((0, None)));
    assert_eq!(gather_plan(3, 4), Ok((12, Some((4, 12)))));
    assert_eq!(gather_plan(1 << 20, 1 << 20), Err(LimitError::ExceedsU32(1usize << 40)));
}

#[test]
fn products_check_blas_extents_and_skip_empty_inner_dims() {
    assert_eq!(matmul_plan(2, 3, 4), Ok((8, true)));
    assert_eq!(matmul_plan(2, 0, 4), Ok((8, false)));
    assert_eq!(matmul_plan(1usize << 31, 0, 0), Err(LimitError::ExceedsI32(1usize << 31)));
    assert_eq!(bmm_plan(2, 3, 4, 5), Ok((30, true)));
    assert_eq!(bmm_plan(0, 3, 4, 5), Ok((0, false)));
    assert_eq!(bmm_plan(1, 1, 1usize << 31, 1), Err(LimitError::ExceedsI32(1usize << 31)));
}

#[test]
fn broadcast_launch_dims_pad_rank_zero() {
    assert_eq!(broadcast_dims(&[]), vec![1]);
    assert_eq!(broadcast_dims(&[2, 3]), vec![2, 3]);
}
