use litcontainers::clamp;
use litcontainers::AxisIterable;
use litcontainers::ContainerCM;
use litcontainers::ContainerRM;
use litcontainers::Dim;
use litcontainers::DimSub;
use litcontainers::Dynamic;
use litcontainers::DynamicColStorage;
use litcontainers::DynamicRowStorage;
use litcontainers::Element;
use litcontainers::ElementType;
use litcontainers::Error;
use litcontainers::Ownable;
use litcontainers::Size;
use litcontainers::Sliceable;
use litcontainers::Storage;
use litcontainers::StorageConstructor;
use litcontainers::StorageMut;
use litcontainers::StorageSize;
use litcontainers::Strided;
use litcontainers::VecStorageCM;
use litcontainers::VecStorageRM;
use litcontainers::U1;
use litcontainers::U2;
use litcontainers::U3;

#[test]
fn construction_checks_buffer_length() {
    // A 2-by-2 size with a 3-element buffer is rejected.
    let r = VecStorageCM::<u64, U2, U2>::from_data(Size::new(U2, U2), vec![1, 2, 3]);
    assert_eq!(r.unwrap_err(), Error::DimensionMismatch);
    let r = VecStorageRM::<u64, U2, U2>::from_data(Size::new(U2, U2), vec![1, 2, 3]);
    assert_eq!(r.unwrap_err(), Error::DimensionMismatch);
    let r = ContainerRM::<u64, U2, U2>::from_vec(U2, U2, vec![1, 2, 3]);
    assert!(r.is_err());
    let ok = VecStorageCM::<u64, U2, U2>::from_data(Size::new(U2, U2), vec![1, 2, 3, 4]);
    assert!(ok.is_ok());
}

#[test]
fn get_checks_bounds() {
    let s = ContainerRM::from_vec(U2, U2, vec![1u64, 2, 3, 4]).unwrap();
    assert_eq!(s.get(0, 1).unwrap(), 2);
    assert_eq!(s.get(1, 0).unwrap(), 3);
    assert_eq!(s.get(2, 0).unwrap_err(), Error::IndexOutOfBounds);
    assert_eq!(s.get(0, 2).unwrap_err(), Error::IndexOutOfBounds);
}

#[test]
fn strides_reflect_layout() {
    let rm = ContainerRM::from_vec(U3, Dynamic::new(2), vec![0u64; 6]).unwrap();
    assert_eq!((rm.row_stride(), rm.col_stride()), (2, 1));
    let cm = ContainerCM::from_vec(U3, Dynamic::new(2), vec![0u64; 6]).unwrap();
    assert_eq!((cm.row_stride(), cm.col_stride()), (1, 3));
    assert_eq!((cm.rows(), cm.cols(), cm.len()), (3, 2, 6));
}

#[test]
fn column_major_col_resize_preserves_elements() {
    // Column-major 2x2: logical [[1,2],[3,4]], buffer [1,3,2,4].
    let mut s = VecStorageCM::<u64, U2, Dynamic>::from_data(
        Size::new(U2, Dynamic::new(2)),
        vec![1, 3, 2, 4],
    )
    .unwrap();
    s.set_cols(3);
    assert_eq!(s.cols(), 3);
    for r in 0..2 {
        for c in 0..2 {
            assert_eq!(s.get(r, c).unwrap(), [[1, 2], [3, 4]][r][c]);
        }
        assert_eq!(s.get(r, 2).unwrap(), 0);
    }
    s.set_cols(1);
    assert_eq!(s.cols(), 1);
    assert_eq!(s.get(0, 0).unwrap(), 1);
    assert_eq!(s.get(1, 0).unwrap(), 3);
}

#[test]
fn column_major_row_resize_relays_columns() {
    // Column-major 2x2: logical [[1,2],[3,4]], buffer [1,3,2,4]. Growing the
    // row count keeps each column's leading values and zero-fills the rest.
    let mut s = VecStorageCM::<u64, Dynamic, U2>::from_data(
        Size::new(Dynamic::new(2), U2),
        vec![1, 3, 2, 4],
    )
    .unwrap();
    s.set_rows(3);
    assert_eq!(s.rows(), 3);
    for c in 0..2 {
        for r in 0..2 {
            assert_eq!(s.get(r, c).unwrap(), [[1, 2], [3, 4]][r][c]);
        }
        assert_eq!(s.get(2, c).unwrap(), 0);
    }
    s.set_rows(1);
    assert_eq!(s.rows(), 1);
    assert_eq!(s.get(0, 0).unwrap(), 1);
    assert_eq!(s.get(0, 1).unwrap(), 2);
}

#[test]
fn row_major_resizes_mirror_column_major() {
    let mut s = VecStorageRM::<u64, Dynamic, U2>::from_data(
        Size::new(Dynamic::new(2), U2),
        vec![1, 2, 3, 4],
    )
    .unwrap();
    s.set_rows(3);
    assert_eq!(s.as_slice(), &[1, 2, 3, 4, 0, 0]);
    let mut s = VecStorageRM::<u64, U2, Dynamic>::from_data(
        Size::new(U2, Dynamic::new(2)),
        vec![1, 2, 3, 4],
    )
    .unwrap();
    s.set_cols(3);
    assert_eq!(s.as_slice(), &[1, 2, 0, 3, 4, 0]);
    s.set_cols(1);
    assert_eq!(s.as_slice(), &[1, 3]);
}

#[test]
fn owned_keeps_logical_order() {
    // A column slice of a row-major container is not contiguous; converting
    // it to an owned container preserves the logical element order.
    let s = ContainerRM::from_vec(U3, Dynamic::new(2), vec![1u64, 2, 3, 4, 5, 6]).unwrap();
    let col = s.slice_cols(1usize);
    let owned = col.clone_owned();
    assert_eq!(owned.as_iter().to_vec(), vec![2, 4, 6]);
    assert_eq!(owned.rows(), 3);
    assert_eq!(owned.cols(), 1);

    let cm = ContainerCM::from_vec(U3, Dynamic::new(2), vec![1u64, 2, 3, 4, 5, 6]).unwrap();
    let owned = cm.slice_rows(0..3).owned();
    assert_eq!(owned.as_iter().to_vec(), cm.as_iter().to_vec());
}

#[test]
fn split_views_share_the_buffer() {
    // A 1-row top view and a 2-row bottom view over the same buffer: writing
    // through the top view is visible when re-reading through a freshly
    // taken full-storage view of the same buffer.
    let mut s = ContainerRM::from_vec(U3, Dynamic::new(2), vec![1u64, 2, 3, 4, 5, 6]).unwrap();
    let full = s.slice_rows_mut(0..3);
    let (top, bottom) = full.split_at_row(U1).unwrap();
    assert_eq!(top.rows(), 1);
    assert_eq!(bottom.rows(), 2);
    top.set(&mut s, 0, 0, 9).unwrap();
    assert_eq!(bottom.get(&s, 0, 0).unwrap(), 3);
    let fresh = s.slice_rows(0..3);
    assert_eq!(fresh.get(0, 0).unwrap(), 9);
    assert_eq!(s.as_iter().to_vec(), vec![9, 2, 3, 4, 5, 6]);
}

#[test]
fn from_value_fills_every_position() {
    let s = VecStorageCM::<u64, U2, U3>::from_value(Size::new(U2, U3), 7);
    assert_eq!(s.as_slice(), &[7, 7, 7, 7, 7, 7]);
    let s = VecStorageRM::<u64, U2, U3>::from_value(Size::new(U2, U3), 5);
    assert_eq!(s.get(1, 2).unwrap(), 5);
}

#[test]
fn map_inplace_rewrites_elements() {
    let mut s = ContainerRM::from_vec(U2, U2, vec![1u64, 2, 3, 4]).unwrap();
    litcontainers::InplaceMap::map_inplace(&mut s, |x: u64| x * 2);
    assert_eq!(s.as_iter().to_vec(), vec![2, 4, 6, 8]);
    litcontainers::InplaceMapOrdered::map_inplace_ordered(&mut s, |x: u64| x + 1);
    assert_eq!(s.as_iter().to_vec(), vec![3, 5, 7, 9]);
}

#[test]
fn dimension_arithmetic() {
    assert_eq!(U3.value(), 3);
    assert_eq!(Dynamic::new(5).value(), 5);
    assert_eq!(U3.sub_dim(U1).value(), 2);
    assert_eq!(U3.sub_dim(Dynamic::new(2)).value(), 1);
    assert_eq!(Dynamic::new(5).sub_dim(U2).value(), 3);
    assert_eq!(Dynamic::new(5), Dynamic::new(5));
    let sz = Size::new(U3, Dynamic::new(2));
    assert_eq!(sz.len(), 6);
    assert_eq!(sz.checked_len(), Some(6));
    let big = Size::new(Dynamic::new(usize::MAX), Dynamic::new(2));
    assert_eq!(big.checked_len(), None);
}

#[test]
fn element_kinds() {
    assert_eq!(<u8 as Element>::element_type(), ElementType::U8);
    assert_eq!(<i64 as Element>::element_type(), ElementType::I64);
    assert_eq!(<bool as Element>::element_type(), ElementType::Bool);
    assert!(<u32 as Element>::numeric());
    assert!(!<bool as Element>::numeric());
}

#[test]
fn clamp_scalar() {
    assert_eq!(clamp(5u64, 1, 10), 5);
    assert_eq!(clamp(0u64, 1, 10), 1);
    assert_eq!(clamp(11u64, 1, 10), 10);
    assert_eq!(clamp(0.5f64, 1.0, 10.0), 1.0);
}

#[test]
fn split_position_past_extent_is_rejected() {
    let s = ContainerRM::from_vec(U3, Dynamic::new(2), vec![1u64, 2, 3, 4, 5, 6]).unwrap();
    let sl = s.slice_rows(0..3);
    let r = sl.split_at_row(Dynamic::new(4));
    assert_eq!(r.unwrap_err(), Error::DimensionMismatch);
    let sl = s.slice_rows(0..3);
    let r = sl.split_at_col(Dynamic::new(3));
    assert_eq!(r.unwrap_err(), Error::DimensionMismatch);
}

#[test]
fn empty_extents() {
    let s = ContainerRM::from_vec(Dynamic::new(0), Dynamic::new(2), Vec::<u64>::new()).unwrap();
    assert_eq!((s.rows(), s.cols(), s.len()), (0, 2, 0));
    assert_eq!(s.as_iter().to_vec(), Vec::<u64>::new());
    assert_eq!(s.get(0, 0).unwrap_err(), Error::IndexOutOfBounds);
    let sl = s.slice_rows(0..0);
    assert_eq!(sl.as_iter().to_vec(), Vec::<u64>::new());
    let (top, bottom) = s.slice_rows(0..0).split_at_row(Dynamic::new(0)).unwrap();
    assert_eq!(top.rows(), 0);
    assert_eq!(bottom.rows(), 0);
}
