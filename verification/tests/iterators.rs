use litcontainers::AxisIterable;
use litcontainers::ContainerCM;
use litcontainers::ContainerRM;
use litcontainers::Dynamic;
use litcontainers::RowSliceIter;
use litcontainers::Sliceable;
use litcontainers::SplittableIterator;
use litcontainers::Storage;
use litcontainers::U3;

fn mock_container() -> ContainerRM<f64, U3, Dynamic> {
    ContainerRM::from_vec(U3, Dynamic::new(2), vec![1., 2., 3., 4., 5., 6.]).unwrap()
}

#[test]
fn iter() {
    let s = mock_container();
    assert_eq!(s.as_row_slice_iter(1).to_vec(), vec![3., 4.]);
    assert_eq!(s.as_row_slice_mut_iter(1).to_vec(&s), vec![3., 4.]);
    assert_eq!(s.slice_rows(1..3).as_row_slice_iter(0).to_vec(), vec![3., 4.]);
    assert_eq!(s.slice_cols(1).as_row_slice_iter(1).to_vec(), vec![4.]);

    assert_eq!(s.as_col_slice_iter(1).to_vec(), vec![2., 4., 6.]);
    assert_eq!(s.as_col_slice_mut_iter(1).to_vec(&s), vec![2., 4., 6.]);
    assert_eq!(s.slice_rows(1..3).as_col_slice_iter(1).to_vec(), vec![4., 6.]);
    assert_eq!(s.slice_cols(1).as_col_slice_iter(0).to_vec(), vec![2., 4., 6.]);

    assert_eq!(s.as_row_slice_iter(2).to_vec(), vec![5., 6.]);
    assert_eq!(s.as_iter().to_vec(), vec![1., 2., 3., 4., 5., 6.]);
}

#[test]
fn column_major_iteration_is_logical() {
    // Column-major buffer [1,4,2,5,3,6] holds logical rows [1,2],[3,4],[5,6]
    // transposed: rows become columns, so the row-major walk reorders.
    let s = ContainerCM::from_vec(U3, Dynamic::new(2), vec![1., 2., 3., 4., 5., 6.]).unwrap();
    assert_eq!(s.as_iter().to_vec(), vec![1., 4., 2., 5., 3., 6.]);
    assert_eq!(s.as_col_iter().to_vec(), vec![1., 2., 3., 4., 5., 6.]);
    assert_eq!(s.as_row_slice_iter(0).to_vec(), vec![1., 4.]);
    assert_eq!(s.as_col_slice_iter(1).to_vec(), vec![4., 5., 6.]);
}

#[test]
fn get_matches_row_major_iteration() {
    let s = mock_container();
    let all = s.as_iter().to_vec();
    for r in 0..3 {
        for c in 0..2 {
            assert_eq!(s.get(r, c).unwrap(), all[r * 2 + c]);
        }
    }
}

#[test]
fn row_slice_iterator_splits_disjointly() {
    let s = mock_container();
    let it = RowSliceIter::from_storage(&s);
    let (mut left, mut right) = it.split_at(1);
    let mut left_rows: Vec<Vec<f64>> = Vec::new();
    while let Some(sl) = left.next() {
        left_rows.push(sl.as_row_slice_iter(0).to_vec());
    }
    let mut right_rows: Vec<Vec<f64>> = Vec::new();
    while let Some(sl) = right.next() {
        right_rows.push(sl.as_row_slice_iter(0).to_vec());
    }
    assert_eq!(left_rows, vec![vec![1., 2.]]);
    assert_eq!(right_rows, vec![vec![3., 4.], vec![5., 6.]]);

    let mut all_rows = left_rows;
    all_rows.extend(right_rows);
    let mut whole = RowSliceIter::from_storage(&s);
    let mut expect: Vec<Vec<f64>> = Vec::new();
    while let Some(sl) = whole.next() {
        expect.push(sl.as_row_slice_iter(0).to_vec());
    }
    assert_eq!(all_rows, expect);
}

#[test]
fn full_iterator_size_hint_is_exact() {
    let s = mock_container();
    let mut it = s.as_iter();
    let mut n = 6;
    loop {
        assert_eq!(it.size_hint(), (n, Some(n)));
        match it.next() {
            Some(_) => n -= 1,
            None => break,
        }
    }
    assert_eq!(n, 0);
}

#[test]
fn split_slice_concatenates_to_original() {
    let s = mock_container();
    let sl = s.slice_rows(0..3);
    let (top, bottom) = sl.split_at_row(Dynamic::new(2)).unwrap();
    let mut got = top.as_iter().to_vec();
    got.extend(bottom.as_iter().to_vec());
    assert_eq!(got, s.as_iter().to_vec());

    let sl = s.slice_rows(0..3);
    let (left, right) = sl.split_at_col(Dynamic::new(1)).unwrap();
    assert_eq!(left.as_iter().to_vec(), vec![1., 3., 5.]);
    assert_eq!(right.as_iter().to_vec(), vec![2., 4., 6.]);
}

#[test]
fn range_iteration() {
    let s = mock_container();
    assert_eq!(s.as_row_range_iter(1..3).to_vec(), vec![3., 4., 5., 6.]);
    assert_eq!(s.as_col_range_iter(1..2).to_vec(), vec![2., 4., 6.]);
    assert_eq!(s.as_row_range_iter(1usize).to_vec(), vec![3., 4.]);
}
