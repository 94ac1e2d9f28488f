//! Python-style dims, indices, slices, keys, selections and device names.

use ferro::indexing::{
    get_item, insert_dim, norm_dim, parse_device, parse_key, slice_indices, wrap_index, DeviceError, DeviceSpec,
    IndexError, Key, KeyItem, Sel,
};

fn sl(start: Option<isize>, stop: Option<isize>, step: Option<isize>) -> KeyItem {
    KeyItem::Slice { start, stop, step }
}

#[test]
fn dims_count_from_the_end() {
    assert_eq!(norm_dim(-1, 3), Ok(2));
    assert_eq!(norm_dim(0, 3), Ok(0));
    assert_eq!(norm_dim(3, 3), Err(IndexError::DimOutOfRange { dim: 3, ndim: 3 }));
    assert_eq!(norm_dim(-4, 3), Err(IndexError::DimOutOfRange { dim: -4, ndim: 3 }));
    assert_eq!(insert_dim(-1, 2), Ok(2));
    assert_eq!(insert_dim(0, 2), Ok(0));
    assert_eq!(insert_dim(4, 2), Err(IndexError::InsertDimOutOfRange { dim: 4, ndim: 2 }));
    assert_eq!(insert_dim(-4, 2), Err(IndexError::InsertDimOutOfRange { dim: -4, ndim: 2 }));
}

#[test]
fn indices_count_from_the_end() {
    assert_eq!(wrap_index(-1, 5), Ok(4));
    assert_eq!(wrap_index(2, 5), Ok(2));
    assert_eq!(wrap_index(5, 5), Err(IndexError::IndexOutOfBounds { index: 5, len: 5 }));
    assert_eq!(wrap_index(-6, 5), Err(IndexError::IndexOutOfBounds { index: -6, len: 5 }));
    assert_eq!(wrap_index(0, 0), Err(IndexError::IndexOutOfBounds { index: 0, len: 0 }));
}

#[test]
fn slices_follow_python_semantics() {
    assert_eq!(slice_indices(None, None, 1, 5), Ok(vec![0, 1, 2, 3, 4]));
    assert_eq!(slice_indices(Some(1), Some(4), 2, 5), Ok(vec![1, 3]));
    assert_eq!(slice_indices(None, None, -1, 5), Ok(vec![4, 3, 2, 1, 0]));
    assert_eq!(slice_indices(Some(-1), None, -1, 5), Ok(vec![4, 3, 2, 1, 0]));
    assert_eq!(slice_indices(Some(-2), None, 1, 5), Ok(vec![3, 4]));
    assert_eq!(slice_indices(None, Some(-1), 1, 5), Ok(vec![0, 1, 2, 3]));
    assert_eq!(slice_indices(Some(3), Some(0), -1, 5), Ok(vec![3, 2, 1]));
    assert_eq!(slice_indices(Some(-3), Some(-5), -1, 5), Ok(vec![2, 1]));
    assert_eq!(slice_indices(Some(10), None, 1, 5), Ok(vec![]));
    assert_eq!(slice_indices(Some(10), None, -2, 5), Ok(vec![4, 2, 0]));
    assert_eq!(slice_indices(None, None, 2, 0), Ok(vec![]));
    assert_eq!(slice_indices(None, None, 0, 5), Err(IndexError::ZeroStep));
    assert_eq!(slice_indices(Some(isize::MAX), None, isize::MIN, 5), Ok(vec![4]));
    assert_eq!(slice_indices(Some(2), Some(5), isize::MAX, 5), Ok(vec![2]));
}

#[test]
fn keys_expand_an_ellipsis_over_unspecified_axes() {
    let full = Sel::Slice { start: None, stop: None, step: None };
    assert_eq!(parse_key(&Key::Single(KeyItem::Ellipsis), 2), Ok(vec![full, full]));
    assert_eq!(parse_key(&Key::Single(KeyItem::Index(3)), 2), Ok(vec![Sel::Index(3)]));
    assert_eq!(
        parse_key(&Key::Tuple(vec![KeyItem::Index(0), KeyItem::Ellipsis, KeyItem::Index(1)]), 4),
        Ok(vec![Sel::Index(0), full, full, Sel::Index(1)])
    );
    assert_eq!(parse_key(&Key::Tuple(vec![KeyItem::Ellipsis, KeyItem::Index(1)]), 1), Ok(vec![Sel::Index(1)]));
    assert_eq!(
        parse_key(&Key::Tuple(vec![KeyItem::Index(0), KeyItem::Index(1), KeyItem::Index(2)]), 2),
        Err(IndexError::TooManyIndices { count: 3, ndim: 2 })
    );
    assert_eq!(parse_key(&Key::Tuple(vec![KeyItem::Index(0), KeyItem::Invalid]), 2), Err(IndexError::NotAnIndex));
    assert_eq!(parse_key(&Key::Single(KeyItem::Invalid), 2), Err(IndexError::NotAnIndex));
}

#[test]
fn basic_selections_gather_row_major() {
    let data: Vec<f32> = (0..6).map(|v| v as f32).collect();
    let shape = vec![2, 3];
    let get = |key: Key| get_item(&data, &shape, &key);
    assert_eq!(get(Key::Single(KeyItem::Index(1))), Ok((vec![3.0, 4.0, 5.0], vec![3])));
    assert_eq!(get(Key::Single(KeyItem::Index(-1))), Ok((vec![3.0, 4.0, 5.0], vec![3])));
    assert_eq!(get(Key::Tuple(vec![sl(None, None, None), KeyItem::Index(0)])), Ok((vec![0.0, 3.0], vec![2])));
    assert_eq!(get(Key::Tuple(vec![KeyItem::Ellipsis, KeyItem::Index(2)])), Ok((vec![2.0, 5.0], vec![2])));
    assert_eq!(get(Key::Single(KeyItem::Ellipsis)), Ok((data.clone(), vec![2, 3])));
    assert_eq!(
        get(Key::Single(sl(None, None, Some(-1)))),
        Ok((vec![3.0, 4.0, 5.0, 0.0, 1.0, 2.0], vec![2, 3]))
    );
    assert_eq!(get(Key::Tuple(vec![KeyItem::Index(0), sl(None, None, Some(2))])), Ok((vec![0.0, 2.0], vec![2])));
    assert_eq!(get(Key::Tuple(vec![KeyItem::Index(1), KeyItem::Index(2)])), Ok((vec![5.0], vec![])));
    assert_eq!(
        get(Key::Tuple(vec![KeyItem::Index(0), KeyItem::Index(1), KeyItem::Index(2)])),
        Err(IndexError::TooManyIndices { count: 3, ndim: 2 })
    );
    assert_eq!(get(Key::Tuple(vec![KeyItem::Index(5)])), Err(IndexError::IndexOutOfBounds { index: 5, len: 2 }));
    assert_eq!(get(Key::Single(sl(None, None, Some(0)))), Err(IndexError::ZeroStep));
    assert_eq!(get(Key::Single(sl(Some(2), None, None))), Ok((vec![], vec![0, 3])));
}

#[test]
fn a_middle_ellipsis_keeps_the_trailing_index_on_the_last_axis() {
    let data: Vec<u8> = (0..8).collect();
    let shape = vec![2, 2, 2];
    let key = Key::Tuple(vec![KeyItem::Index(0), KeyItem::Ellipsis, KeyItem::Index(1)]);
    assert_eq!(get_item(&data, &shape, &key), Ok((vec![1, 3], vec![2])));
}

#[test]
fn device_names() {
    assert_eq!(parse_device("cpu").ok(), Some(DeviceSpec::Cpu));
    assert_eq!(parse_device("cuda").ok(), Some(DeviceSpec::Cuda(0)));
    assert_eq!(parse_device("cuda:3").ok(), Some(DeviceSpec::Cuda(3)));
    assert_eq!(parse_device("cuda:+7").ok(), Some(DeviceSpec::Cuda(7)));
    assert_eq!(parse_device("cuda:4294967295").ok(), Some(DeviceSpec::Cuda(u32::MAX)));
    for bad in ["cuda:", "cuda:x", "cuda:-1", "cuda:4294967296", "cuda:+"] {
        match parse_device(bad) {
            Err(DeviceError::InvalidCudaIndex(s)) => assert_eq!(s, bad),
            other => panic!("{bad}: {other:?}"),
        }
    }
    for bad in ["gpu", "cudax", "CPU", ""] {
        match parse_device(bad) {
            Err(DeviceError::UnknownDevice(s)) => assert_eq!(s, bad),
            other => panic!("{bad}: {other:?}"),
        }
    }
    assert_eq!(
        DeviceError::InvalidCudaIndex("cuda:x".to_string()).message(),
        "invalid cuda device index in \"cuda:x\""
    );
    assert_eq!(
        DeviceError::UnknownDevice("gpu".to_string()).message(),
        "unknown device \"gpu\"; expected 'cpu', 'cuda' or 'cuda:N'"
    );
}
