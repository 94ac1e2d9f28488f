//! Static graph plan validation and lowering.

use ferro::kernels::{BinaryKind, ChainStep, UnaryKind};
use ferro::static_plan::{
    check_model, check_pointwise_dag, check_run, materialize_extents, plan_model, ModelCommand,
    PlanError, PlanFault, StaticOp, StaticPointwiseRun, StaticRun,
};

fn run(inputs: Vec<usize>, shape: Vec<usize>, op: StaticOp) -> StaticRun {
    StaticRun { inputs, op, shape }
}

fn rejected(f: PlanFault) -> PlanError {
    PlanError::Rejected(f)
}

#[test]
fn zero_work_plans_launch_nothing_or_a_zero_fill() {
    let runs = vec![run(vec![0], vec![0], StaticOp::Layout { strides: vec![1] })];
    let plan = plan_model(&vec![0], &runs).unwrap();
    assert!(plan.commands.is_empty());
    assert_eq!(plan.buffers, vec![0]);
    assert_eq!(plan.output, 0);
    for op in [StaticOp::MatMul { m: 2, k: 0, n: 3 }, StaticOp::Bmm { batch: 2, m: 1, k: 0, n: 3 }] {
        let runs = vec![run(vec![0, 0], vec![2, 3], op)];
        let plan = plan_model(&vec![0], &runs).unwrap();
        assert_eq!(plan.commands, vec![ModelCommand::Fill { out: 1, n: 6 }]);
        assert_eq!(plan.buffers, vec![6]);
    }
}

#[test]
fn contiguous_layouts_alias_without_buffers_or_launches() {
    let runs = vec![
        run(vec![0], vec![2, 2], StaticOp::Layout { strides: vec![2, 1] }),
        run(vec![1], vec![4], StaticOp::Layout { strides: vec![1] }),
        run(vec![2, 1], vec![2, 2], StaticOp::MatMul { m: 2, k: 2, n: 2 }),
    ];
    let plan = plan_model(&vec![4], &runs).unwrap();
    assert_eq!(plan.slots, vec![0, 0, 0, 1]);
    assert_eq!(plan.buffers, vec![4]);
    assert_eq!(plan.output, 0);
    assert_eq!(
        plan.commands,
        vec![ModelCommand::Gemm { a: 0, b: 0, out: 1, batch: 1, m: 2, k: 2, n: 2 }]
    );
    let direct = vec![run(vec![0, 0], vec![2, 2], StaticOp::MatMul { m: 2, k: 2, n: 2 })];
    assert_eq!(plan_model(&vec![4], &direct).unwrap().commands.len(), plan.commands.len());
}

#[test]
fn transposes_scratch_and_final_copies_own_buffers() {
    let runs = vec![
        run(vec![0], vec![1, 2, 2], StaticOp::Layout { strides: vec![0, 2, 1] }),
        run(vec![1], vec![2, 2], StaticOp::Layout { strides: vec![1, 2] }),
        run(vec![2], vec![2, 2], StaticOp::Softmax { rows: 2, cols: 2 }),
        run(vec![3], vec![4], StaticOp::Layout { strides: vec![1] }),
    ];
    let plan = plan_model(&vec![4], &runs).unwrap();
    assert_eq!(plan.slots, vec![0, 0, 1, 2, 3]);
    // transpose, softmax, final copy, then the softmax stats scratch
    assert_eq!(plan.buffers, vec![4, 4, 4, 4]);
    assert_eq!(plan.output, 2);
    assert_eq!(
        plan.commands,
        vec![
            ModelCommand::Materialize { run: 1, input: 0, out: 1, n: 4 },
            ModelCommand::SoftmaxStats { input: 1, stats: 4, rows: 2, cols: 2 },
            ModelCommand::SoftmaxApply { input: 1, stats: 4, out: 2, n: 4, cols: 2 },
            ModelCommand::Materialize { run: 3, input: 2, out: 3, n: 4 },
        ]
    );
    // An all-layout graph still owns an independent output.
    let last = vec![run(vec![0], vec![4], StaticOp::Layout { strides: vec![1] })];
    let plan = plan_model(&vec![4], &last).unwrap();
    assert_eq!(plan.commands, vec![ModelCommand::Materialize { run: 0, input: 0, out: 1, n: 4 }]);
}

#[test]
fn sum_norm_pointwise_and_bmm_lower_to_their_kernels() {
    let steps = vec![ChainStep::Unary(UnaryKind::Relu), ChainStep::Binary { kind: BinaryKind::Add, other: 1 }];
    let runs = vec![
        run(vec![0], vec![2, 3], StaticOp::Sum { red: 2, inner: 3 }),
        run(vec![3, 1, 2], vec![2, 3], StaticOp::LayerNorm { rows: 2, cols: 3, weight: true, bias: false }),
        run(vec![4, 3], vec![2, 3], StaticOp::Pointwise(steps)),
        run(vec![5, 4], vec![2, 1, 1], StaticOp::Bmm { batch: 2, m: 1, k: 3, n: 1 }),
    ];
    // x: 2x2x3, weight 3, bias 3
    let plan = plan_model(&vec![12, 3, 3], &runs).unwrap();
    assert_eq!(plan.sizes, vec![12, 3, 3, 6, 6, 6, 2]);
    assert_eq!(
        plan.commands,
        vec![
            ModelCommand::SumDim { input: 0, out: 3, n: 6, red: 2, inner: 3 },
            ModelCommand::LayerNorm { run: 1, x: 3, weight: 1, bias: 2, out: 4, rows: 2, cols: 3 },
            ModelCommand::Chain { run: 2, out: 5, n: 6 },
            ModelCommand::Gemm { a: 5, b: 4, out: 6, batch: 2, m: 1, k: 3, n: 1 },
        ]
    );
    assert_eq!(plan.output, 3);
}

#[test]
fn empty_static_plans_still_validate_extents_strides_and_operands() {
    let max = usize::MAX;
    let u = u32::MAX as usize;
    let cases = vec![
        (run(vec![0], vec![0], StaticOp::Softmax { rows: max, cols: 0 }), PlanError::ExceedsU32(max)),
        (
            run(vec![0, 0, 0], vec![0], StaticOp::LayerNorm { rows: 0, cols: max, weight: false, bias: false }),
            PlanError::ExceedsU32(max),
        ),
        (
            run(vec![0], vec![0, u, u, 2], StaticOp::Layout { strides: vec![0, 0, 2, 1] }),
            rejected(PlanFault::ShapeStrideOverflow),
        ),
        (run(vec![0], vec![0, max, 2], StaticOp::Layout { strides: vec![0, 2, 1] }), PlanError::ExceedsU32(max)),
        (run(vec![0], vec![0, 3], StaticOp::Broadcast { strides: vec![1] }), rejected(PlanFault::InvalidLayout)),
        (
            run(vec![0], vec![0], StaticOp::Pointwise(vec![ChainStep::Binary { kind: BinaryKind::Sub, other: max }])),
            rejected(PlanFault::InvalidPointwiseOperand),
        ),
        (run(vec![0, 0], vec![1], StaticOp::MatMul { m: 1, k: 0, n: 2 }), rejected(PlanFault::InvalidMatmul)),
        (run(vec![0], vec![max, 2], StaticOp::Layout { strides: vec![2, 1] }), rejected(PlanFault::ShapeOverflow)),
    ];
    for (r, want) in cases {
        let runs = vec![r];
        assert_eq!(check_model(&vec![0], &runs).err(), Some(want));
        assert_eq!(plan_model(&vec![0], &runs).err(), Some(want));
    }
}

#[test]
fn malformed_static_plan_is_rejected_without_panicking_or_allocating() {
    let runs = vec![run(
        vec![0],
        vec![2],
        StaticOp::Pointwise(vec![ChainStep::Binary { kind: BinaryKind::Add, other: usize::MAX }]),
    )];
    assert_eq!(plan_model(&vec![2], &runs).err(), Some(rejected(PlanFault::InvalidPointwiseOperand)));
}

#[test]
fn model_checks_cover_each_fault() {
    let sizes = vec![6, 6, 4];
    let cases = vec![
        (run(vec![], vec![1], StaticOp::Softmax { rows: 1, cols: 1 }), rejected(PlanFault::InvalidInputSlot)),
        (run(vec![3], vec![1], StaticOp::Softmax { rows: 1, cols: 1 }), rejected(PlanFault::InvalidInputSlot)),
        (run(vec![0], vec![1usize << 33], StaticOp::Softmax { rows: 1, cols: 1 }), PlanError::ExceedsU32(1usize << 33)),
        (run(vec![0, 1], vec![6], StaticOp::MatMul { m: 1usize << 31, k: 1, n: 1 }), PlanError::ExceedsI32(1usize << 31)),
        (run(vec![0, 1], vec![6], StaticOp::Bmm { batch: 1, m: 6, k: 1, n: 1 }), rejected(PlanFault::InvalidBmm)),
        (run(vec![0], vec![2, 3], StaticOp::Layout { strides: vec![3, 2] }), rejected(PlanFault::LayoutOutOfBounds)),
        (run(vec![0], vec![6], StaticOp::Softmax { rows: 2, cols: 2 }), rejected(PlanFault::InvalidSoftmax)),
        (run(vec![0], vec![4], StaticOp::Sum { red: 2, inner: 1 }), rejected(PlanFault::InvalidSum)),
        (run(vec![0], vec![3], StaticOp::Sum { red: 2, inner: 2 }), rejected(PlanFault::InvalidSum)),
        (
            run(vec![0, 2, 2], vec![2, 3], StaticOp::LayerNorm { rows: 2, cols: 3, weight: true, bias: false }),
            rejected(PlanFault::InvalidNormalization),
        ),
        (run(vec![0], vec![6], StaticOp::Pointwise(vec![])), rejected(PlanFault::InvalidPointwiseRun)),
        (
            run(vec![0, 2], vec![6], StaticOp::Pointwise(vec![ChainStep::Binary { kind: BinaryKind::Mul, other: 1 }])),
            rejected(PlanFault::UnsupportedBroadcast),
        ),
        (
            run(
                vec![0, 2],
                vec![6],
                StaticOp::Pointwise(vec![ChainStep::BinaryBc {
                    kind: BinaryKind::Add,
                    other: 1,
                    dims: vec![2, 3],
                    strides: vec![2, 1],
                }]),
            ),
            rejected(PlanFault::BroadcastOutOfBounds),
        ),
    ];
    for (r, want) in cases {
        assert_eq!(check_run(&sizes, &r), Err(want));
    }
    let bc = run(
        vec![0, 2],
        vec![6],
        StaticOp::Pointwise(vec![ChainStep::BinaryBc { kind: BinaryKind::Add, other: 1, dims: vec![2, 3], strides: vec![0, 1] }]),
    );
    assert_eq!(check_run(&sizes, &bc), Ok(6));
    assert_eq!(check_model(&vec![], &vec![bc]).err(), Some(rejected(PlanFault::EmptyModel)));
    assert_eq!(check_model(&vec![6], &vec![]).err(), Some(rejected(PlanFault::EmptyModel)));
}

#[test]
fn later_runs_see_earlier_run_slots() {
    let runs = vec![
        run(vec![0], vec![3, 2], StaticOp::Layout { strides: vec![1, 3] }),
        run(vec![1], vec![3, 2], StaticOp::Softmax { rows: 3, cols: 2 }),
        run(vec![2, 0], vec![6], StaticOp::Pointwise(vec![ChainStep::Binary { kind: BinaryKind::Div, other: 1 }])),
    ];
    assert_eq!(check_model(&vec![6], &runs).unwrap(), vec![6, 6, 6, 6]);
    let bad = vec![run(vec![1], vec![6], StaticOp::Softmax { rows: 1, cols: 6 })];
    assert_eq!(check_model(&vec![6], &bad).err(), Some(rejected(PlanFault::InvalidInputSlot)));
}

#[test]
fn rejects_invalid_or_unsupported_dag_before_allocating() {
    let relu = || vec![ChainStep::Unary(UnaryKind::Relu)];
    let invalid = vec![
        (StaticPointwiseRun { inputs: vec![9], steps: relu() }, rejected(PlanFault::InvalidDagInput)),
        (
            StaticPointwiseRun { inputs: vec![0], steps: vec![ChainStep::Binary { kind: BinaryKind::Add, other: usize::MAX }] },
            rejected(PlanFault::InvalidDagOperand),
        ),
        (StaticPointwiseRun { inputs: vec![0], steps: vec![] }, rejected(PlanFault::InvalidDagInput)),
        (
            StaticPointwiseRun {
                inputs: vec![0],
                steps: vec![ChainStep::BinaryBc { kind: BinaryKind::Add, other: 0, dims: vec![2], strides: vec![1] }],
            },
            rejected(PlanFault::InvalidDagOperand),
        ),
    ];
    for (r, want) in invalid {
        assert_eq!(check_pointwise_dag(&vec![2], &vec![r]).err(), Some(want));
    }
}

#[test]
fn pointwise_dags_chain_runs_over_equal_sizes() {
    let runs: Vec<StaticPointwiseRun> =
        (0..3).map(|i| StaticPointwiseRun { inputs: vec![i], steps: vec![ChainStep::Unary(UnaryKind::Relu)] }).collect();
    assert_eq!(check_pointwise_dag(&vec![2], &runs).unwrap(), vec![2, 2, 2, 2]);
    let pair = vec![StaticPointwiseRun {
        inputs: vec![0, 1],
        steps: vec![ChainStep::Binary { kind: BinaryKind::Mul, other: 1 }],
    }];
    assert_eq!(check_pointwise_dag(&vec![3, 3], &pair).unwrap(), vec![3, 3, 3]);
    assert_eq!(check_pointwise_dag(&vec![3, 2], &pair).err(), Some(rejected(PlanFault::InvalidDagOperand)));
    let extra = vec![StaticPointwiseRun { inputs: vec![0, 1], steps: vec![ChainStep::Unary(UnaryKind::Exp)] }];
    assert_eq!(check_pointwise_dag(&vec![3, 3], &extra).err(), Some(rejected(PlanFault::ArityMismatch)));
    assert_eq!(check_pointwise_dag(&vec![0], &runs).err(), Some(rejected(PlanFault::EmptyRun)));
    assert_eq!(check_pointwise_dag(&vec![], &runs).err(), Some(rejected(PlanFault::EmptyDag)));
    assert_eq!(check_pointwise_dag(&vec![2], &vec![]).err(), Some(rejected(PlanFault::EmptyDag)));
    assert_eq!(check_pointwise_dag(&vec![1usize << 32], &runs).err(), Some(PlanError::ExceedsU32(1usize << 32)));
}

#[test]
fn materialize_extents_pad_to_sixteen_dims() {
    let v = materialize_extents(&[2, 3], &[3, 1]);
    assert_eq!(v.len(), 32);
    assert_eq!(&v[..6], &[2, 3, 3, 1, 1, 0]);
    assert!(v[4..].chunks(2).all(|c| c == [1, 0]));
}

#[test]
fn fault_messages_name_the_problem() {
    assert_eq!(PlanFault::EmptyDag.message(), "empty DAG");
    assert_eq!(PlanFault::InvalidMatmul.message(), "invalid or empty static matmul");
    assert_eq!(PlanFault::ArityMismatch.message(), "input arity differs from kernel signature");
}
