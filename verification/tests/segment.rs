//! Segment topologies and segment launch decisions.

use ferro::segment::{build_csr, segment_launch, SegmentError, SegmentLaunch, SegmentOp};

#[test]
fn csr_offsets_then_edges_by_segment() {
    // Segments 0 and 2 hold edges {1} and {0, 2}; segments 1 and 3 are empty.
    assert_eq!(build_csr(&vec![2, 0, 2], 4).unwrap(), vec![0, 1, 1, 3, 3, 1, 0, 2]);
    assert_eq!(build_csr(&vec![1, 0, 1], 3).unwrap(), vec![0, 1, 3, 3, 1, 0, 2]);
    assert_eq!(build_csr(&vec![], 4).unwrap(), vec![0, 0, 0, 0, 0]);
    assert_eq!(build_csr(&vec![], 0).unwrap(), vec![0]);
    assert_eq!(build_csr(&vec![0, 0, 0], 1).unwrap(), vec![0, 3, 0, 1, 2]);
}

#[test]
fn invalid_or_oversized_topologies_are_refused() {
    assert_eq!(build_csr(&vec![4], 4), Err(SegmentError::InvalidTopology));
    assert_eq!(build_csr(&vec![], usize::MAX), Err(SegmentError::InvalidTopology));
    assert_eq!(build_csr(&vec![], i32::MAX as usize), Err(SegmentError::InvalidTopology));
    assert_eq!(SegmentError::InvalidTopology.message(), "invalid or oversized segment topology");
}

#[test]
fn segment_operations_pick_mode_and_lengths() {
    let sum = segment_launch(SegmentOp::Sum, 3, 4, 2, 6).unwrap();
    assert_eq!(
        sum,
        SegmentLaunch { mode: 0, edge_elems: 6, group_elems: 8, output: 8, launch: true, groups_arg: 4, width_arg: 2 }
    );
    let back = segment_launch(SegmentOp::SumBackward, 3, 4, 2, 8).unwrap();
    assert_eq!((back.mode, back.output), (1, 6));
    let soft = segment_launch(SegmentOp::Softmax, 3, 4, 2, 6).unwrap();
    assert_eq!((soft.mode, soft.output), (2, 6));
    assert!(soft.reports_status());
    assert!(!soft.needs_saved());
    let adj = segment_launch(SegmentOp::SoftmaxBackward, 3, 4, 2, 6).unwrap();
    assert_eq!((adj.mode, adj.output), (3, 6));
    assert!(adj.needs_saved());
    assert!(adj.check_saved(6).is_ok());
    assert_eq!(adj.check_saved(4), Err(SegmentError::InvalidBuffer));
}

#[test]
fn backend_validation_rejects_wrong_sizes() {
    assert_eq!(segment_launch(SegmentOp::Sum, 3, 3, 1, 2), Err(SegmentError::InvalidBuffer));
    assert_eq!(segment_launch(SegmentOp::Sum, 3, 3, usize::MAX, 3), Err(SegmentError::InvalidBuffer));
    assert_eq!(segment_launch(SegmentOp::Sum, 1 << 31, 1, 1, 1 << 31), Err(SegmentError::InvalidBuffer));
    assert_eq!(SegmentError::InvalidBuffer.message(), "invalid segment buffer or size");
}

#[test]
fn empty_contracts_launch_nothing() {
    // No edges over four segments: sums are zero-filled outputs.
    let l = segment_launch(SegmentOp::Sum, 0, 4, 2, 0).unwrap();
    assert_eq!((l.output, l.launch), (8, true));
    let l = segment_launch(SegmentOp::Sum, 0, 0, 2, 0).unwrap();
    assert_eq!((l.output, l.launch), (0, false));
    let l = segment_launch(SegmentOp::Softmax, 3, 4, 0, 0).unwrap();
    assert_eq!((l.output, l.launch), (0, false));
    assert!(!l.reports_status());
}
