//! DLPack header validation, strided gathers and exported view offsets.

use ferro::dlpack::{
    check_header, dlpack_device, gather, view_byte_offset, DlError, DlHeader, DlSource, K_DL_CPU, K_DL_CUDA,
    K_DL_FLOAT,
};

/// A host f32 header over `data`, with row-major strides unless given.
struct Fixture {
    header: DlHeader,
    data: Vec<f32>,
}

fn fixture(shape: Vec<i64>, strides: Option<Vec<i64>>, data: Vec<f32>) -> Fixture {
    Fixture {
        header: DlHeader {
            device_type: K_DL_CPU,
            device_id: 0,
            ndim: shape.len() as i32,
            code: K_DL_FLOAT,
            bits: 32,
            lanes: 1,
            shape: Some(shape),
            strides,
            data_null: data.is_empty(),
            byte_offset: 0,
        },
        data,
    }
}

/// What an import of the fixture produces: the header is checked first,
/// then the window is read from the data and gathered.
fn run(f: &mut Fixture) -> Result<Vec<f32>, DlError> {
    let imp = check_header(&f.header)?;
    if imp.source.is_none() {
        return Ok(Vec::new());
    }
    let first = imp.first as usize;
    let window: Vec<f32> = f.data[first..first + imp.window].to_vec();
    Ok(gather(&imp, &window))
}

fn err(f: &mut Fixture) -> String {
    run(f).err().expect("expected error").message()
}

fn ok(f: &mut Fixture) -> Vec<f32> {
    run(f).expect("expected ok")
}

#[test]
fn contiguous_round_trip() {
    let mut f = fixture(vec![2, 3], None, vec![1.0, 2.0, 3.0, 4.0, 5.0, 6.0]);
    assert_eq!(ok(&mut f), [1.0, 2.0, 3.0, 4.0, 5.0, 6.0]);
}

#[test]
fn rejects_negative_ndim_and_dims() {
    let mut f = fixture(vec![2], None, vec![0.0]);
    f.header.ndim = -1;
    assert!(err(&mut f).contains("negative ndim"));

    let mut f = fixture(vec![2, -3], None, vec![0.0; 6]);
    assert!(err(&mut f).contains("negative extent"));
}

#[test]
fn rejects_numel_overflow() {
    let big = 1i64 << 62;
    let mut f = fixture(vec![big, big, big, big], Some(vec![0; 4]), vec![]);
    assert!(err(&mut f).contains("overflows"));
}

#[test]
fn rejects_strides_reaching_outside_buffer() {
    // Each stride alone is within numel, but combined offsets are not.
    let mut f = fixture(vec![2, 2], Some(vec![4, 1]), vec![0.0; 4]);
    assert!(err(&mut f).contains("outside"));
}

#[test]
fn gathers_with_strides() {
    // Row-major (2,3) viewed transposed via strides.
    let data = vec![1.0, 2.0, 3.0, 4.0, 5.0, 6.0];
    let mut f = fixture(vec![3, 2], Some(vec![1, 3]), data);
    assert_eq!(ok(&mut f), [1.0, 4.0, 2.0, 5.0, 3.0, 6.0]);

    let mut f = fixture(vec![2, 3], None, vec![1.0, 2.0, 3.0, 4.0, 5.0, 6.0]);
    assert_eq!(ok(&mut f), [1.0, 2.0, 3.0, 4.0, 5.0, 6.0]);
}

#[test]
fn rejects_bad_device_dtype_and_null_data() {
    // Device type 4 is kDLOneAPI - unsupported here.
    let mut f = fixture(vec![2], None, vec![0.0; 2]);
    f.header.device_type = 4;
    assert!(err(&mut f).contains("kDLCUDA"));

    let mut f = fixture(vec![2], None, vec![0.0; 2]);
    f.header.bits = 64;
    assert!(err(&mut f).contains("float32"));

    let mut f = fixture(vec![2], None, vec![]);
    f.header.data_null = true;
    assert!(err(&mut f).contains("null data pointer"));
}

#[test]
fn view_byte_offset_is_f32_scaled_and_overflow_free() {
    assert_eq!(view_byte_offset(0).unwrap(), 0);
    assert_eq!(view_byte_offset(3).unwrap(), 12);
    assert_eq!(view_byte_offset(usize::MAX / 4).unwrap(), (usize::MAX / 4) as u64 * 4);
    assert!(view_byte_offset(usize::MAX).is_none());
    // The % 4 alignment rule always holds for element-scaled offsets.
    for elems in [0usize, 1, 7, 1023] {
        assert_eq!(view_byte_offset(elems).unwrap() % 4, 0);
    }
}

#[test]
fn empty_tensors_never_touch_their_data() {
    let mut f = fixture(vec![2, 0], None, vec![]);
    let imp = check_header(&f.header).unwrap();
    assert_eq!(imp.shape, vec![2, 0]);
    assert_eq!(imp.numel, 0);
    assert!(imp.source.is_none());
    assert!(ok(&mut f).is_empty());
    // A zero-dim tensor holds one element.
    let mut f = fixture(vec![], None, vec![7.5]);
    f.header.shape = None;
    assert_eq!(ok(&mut f), [7.5]);
}

#[test]
fn null_shape_and_misaligned_offsets_are_refused() {
    let mut f = fixture(vec![2], None, vec![1.0, 2.0]);
    f.header.shape = None;
    assert_eq!(err(&mut f), "DLPack tensor has null shape");
    let mut f = fixture(vec![1], None, vec![1.0, 2.0]);
    f.header.byte_offset = 2;
    assert_eq!(err(&mut f), "DLPack byte_offset is not f32-aligned");
    let mut f = fixture(vec![1], None, vec![1.0, 2.0]);
    f.header.byte_offset = 4;
    assert_eq!(ok(&mut f), [2.0]);
}

#[test]
fn cuda_imports_download_the_strided_window() {
    let mut f = fixture(vec![2, 2], Some(vec![1, 4]), vec![0.0; 12]);
    f.header.device_type = K_DL_CUDA;
    f.header.device_id = 1;
    // The strides reach offset 5, past the tensor's 4 elements.
    assert_eq!(err(&mut f), "DLPack tensor strides reach outside the described element range");
    let mut f = fixture(vec![2, 2], Some(vec![1, 2]), vec![0.0; 12]);
    f.header.device_type = K_DL_CUDA;
    f.header.device_id = 1;
    f.header.byte_offset = 8;
    let imp = check_header(&f.header).unwrap();
    assert_eq!(imp.source, Some(DlSource::Cuda { ordinal: 1 }));
    assert_eq!(imp.first, 2);
    assert_eq!(imp.window, 4);
    f.header.device_id = -1;
    assert_eq!(err(&mut f), "DLPack tensor has negative device_id");
}

#[test]
fn negative_extent_message_names_value_and_dimension() {
    let mut f = fixture(vec![2, -3], None, vec![0.0; 6]);
    assert_eq!(err(&mut f), "DLPack tensor has negative extent (-3) in dimension 1");
    assert_eq!(
        DlError::NegativeExtent { extent: i64::MIN, dim: 0 }.message(),
        "DLPack tensor has negative extent (-9223372036854775808) in dimension 0"
    );
}

#[test]
fn zero_extent_with_strides_is_out_of_range() {
    let mut f = fixture(vec![0, 3], Some(vec![3, 1]), vec![]);
    assert!(err(&mut f).contains("outside"));
}

#[test]
fn dlpack_device_pairs() {
    assert_eq!(dlpack_device(None), (K_DL_CPU, 0));
    assert_eq!(dlpack_device(Some(3)), (K_DL_CUDA, 3));
}

#[test]
fn explicit_row_major_strides_gather_like_null_strides() {
    let data: Vec<f32> = (0..24).map(|v| v as f32).collect();
    let mut null = fixture(vec![2, 3, 4], None, data.clone());
    let mut explicit = fixture(vec![2, 3, 4], Some(vec![12, 4, 1]), data.clone());
    assert_eq!(ok(&mut explicit), ok(&mut null));
    assert_eq!(ok(&mut null), data);
}
