//! The owned row-major storage: a heap-backed buffer in which consecutive
//! elements of a row are contiguous, so strides are `(cols, 1)`. Growing or
//! shrinking the row count is a pure append or truncation of trailing memory;
//! changing the column count relays the whole buffer.
use crate::buffer::copy_vec;
use crate::buffer::filled_vec;
use crate::buffer::rebuild_lines;
use crate::buffer::resize_element_count;
use crate::container::Container;
use crate::dims::Dim;
use crate::dims::Dynamic;
use crate::dims::Size;
use crate::dims::U1;
use crate::layout::flat_pos;
use crate::layout::lemma_row_major_ok;
use crate::layout::lin_index;
use crate::storage::DynamicColStorage;
use crate::storage::DynamicRowStorage;
use crate::storage::InplaceMap;
use crate::storage::InplaceMapOrdered;
use crate::storage::Ownable;
use crate::storage::Storage;
use crate::storage::StorageConstructor;
use crate::storage::StorageMut;
use crate::storage::StorageSize;
use crate::storage::StorageView;
use crate::storage::Strided;
use crate::storage::StridedIndex;
use crate::Error;
use vstd::prelude::*;

verus! {

/// An owned storage whose buffer is laid out row-major: element `(r, c)`
/// lives at offset `r * cols + c`.
#[derive(Debug, Clone, PartialEq, Eq)]
pub struct VecStorageRM<T, R: Dim, C: Dim> {
    pub data: Vec<T>,
    pub size: Size<R, C>,
}

impl<T: Copy, R: Dim, C: Dim> VecStorageRM<T, R, C> {
    /// Creates a storage over `data`, which must hold exactly
    /// `size.rows * size.cols` elements, or fails with
    /// `Error::DimensionMismatch`.
    pub fn from_data(size: Size<R, C>, data: Vec<T>) -> (res: Result<Self, Error>)
        ensures
            match res {
                Ok(s) => {
                    &&& size.spec_len() == data@.len()
                    &&& s.wf()
                    &&& s.size == size
                    &&& s.spec_buf() == data@
                },
                Err(e) => e == Error::DimensionMismatch && size.spec_len() != data@.len(),
            },
    {
        let data_len = data.len();
        match size.checked_len() {
            Some(l) => {
                if l == data_len {
                    Ok(VecStorageRM { data, size })
                } else {
                    Err(Error::DimensionMismatch)
                }
            },
            None => Err(Error::DimensionMismatch),
        }
    }

    /// Creates a storage over `data`, which must hold exactly `rows * cols`
    /// elements, or fails with `Error::DimensionMismatch`.
    pub fn new(rows: R, cols: C, data: Vec<T>) -> (res: Result<Self, Error>)
        ensures
            match res {
                Ok(s) => {
                    &&& rows.spec_value() * cols.spec_value() == data@.len()
                    &&& s.wf()
                    &&& s.spec_rows() == rows.spec_value()
                    &&& s.spec_cols() == cols.spec_value()
                    &&& s.spec_buf() == data@
                },
                Err(e) => e == Error::DimensionMismatch && rows.spec_value() * cols.spec_value()
                    != data@.len(),
            },
    {
        Self::from_data(Size::new(rows, cols), data)
    }
}

impl<T, R: Dim, C: Dim> StorageSize for VecStorageRM<T, R, C> {
    type Rows = R;

    type Cols = C;

    open spec fn spec_rows(&self) -> nat {
        self.size.spec_rows()
    }

    open spec fn spec_cols(&self) -> nat {
        self.size.spec_cols()
    }

    fn row_dim(&self) -> R {
        self.size.row_dim()
    }

    fn col_dim(&self) -> C {
        self.size.col_dim()
    }
}

impl<T, R: Dim, C: Dim> Strided for VecStorageRM<T, R, C> {
    type RowStride = C;

    type ColStride = U1;

    open spec fn spec_row_stride(&self) -> nat {
        self.size.spec_cols()
    }

    open spec fn spec_col_stride(&self) -> nat {
        1
    }

    open spec fn spec_offset(&self) -> nat {
        0
    }

    fn row_stride_dim(&self) -> C {
        self.size.col_dim()
    }

    fn col_stride_dim(&self) -> U1 {
        let d = U1;
        proof {
            assert(d.spec_value() == 1);
        }
        d
    }

    fn offset(&self) -> usize {
        0
    }
}

impl<T: Copy, R: Dim, C: Dim> Storage<T> for VecStorageRM<T, R, C> {
    open spec fn spec_buf(&self) -> Seq<T> {
        self.data@
    }

    open spec fn wf(&self) -> bool {
        &&& self.data@.len() == self.size.spec_len()
        &&& self.size.spec_len() <= usize::MAX
    }

    proof fn lemma_wf(&self) {
        let rows = self.size.spec_rows() as int;
        let cols = self.size.spec_cols() as int;
        let len = self.data@.len() as int;
        assert(rows * cols == self.size.spec_len());
        lemma_row_major_ok(rows, cols, len);
        assert(crate::layout::layout_ok(
            self.spec_offset() as int,
            self.spec_rows() as int,
            self.spec_row_stride() as int,
            self.spec_cols() as int,
            self.spec_col_stride() as int,
            self.spec_buf().len() as int,
        ));
    }

    fn read_index(&self, i: usize) -> T {
        self.data[i]
    }

    fn as_slice(&self) -> &[T] {
        self.data.as_slice()
    }
}

impl<T: Copy, R: Dim, C: Dim> StorageMut<T> for VecStorageRM<T, R, C> {
    fn set_index(&mut self, i: usize, v: T) {
        self.data[i] = v;
    }
}

impl<T: Copy + Default, C: Dim> DynamicRowStorage<T> for VecStorageRM<T, Dynamic, C> {
    fn set_rows(&mut self, count: usize) {
        let cols = self.size.cols();
        let new_len = count * cols;
        let d = T::default();
        resize_element_count(&mut self.data, new_len, d);
        self.size.rows = Dynamic::new(count);
        proof {
            let oc = old(self).spec_cols() as int;
            let orows = old(self).spec_rows() as int;
            assert(new_len as int == count * oc);
            assert(old(self).data@.len() as int == orows * oc);
            assert forall|r: int, c: int|
                0 <= r < orows && r < count && 0 <= c < oc implies #[trigger] self.spec_at(r, c)
                == old(self).spec_at(r, c) by {
                let k = r * oc + c;
                assert(0 <= k && k < count * oc && k < orows * oc) by (nonlinear_arith)
                    requires
                        0 <= r < orows,
                        r < count,
                        0 <= c < oc,
                        k == r * oc + c,
                ;
                assert(self.size.cols == old(self).size.cols);
                assert(self.spec_row_stride() as int == oc);
                assert(self.spec_offset() == 0);
                assert(self.spec_col_stride() == 1);
                assert(lin_index(0, r, oc, c, 1) == k);
                assert(self.spec_index(r, c) == k);
                assert(old(self).spec_index(r, c) == k);
                assert(self.data@[k] == old(self).data@[k]);
            }
            assert forall|r: int, c: int|
                orows <= r < count && 0 <= c < oc implies call_ensures(
                <T as Default>::default,
                (),
                #[trigger] self.spec_at(r, c),
            ) by {
                let k = r * oc + c;
                assert(orows * oc <= k && k < count * oc) by (nonlinear_arith)
                    requires
                        orows <= r < count,
                        0 <= c < oc,
                        k == r * oc + c,
                ;
                assert(self.spec_index(r, c) == k);
                assert(self.data@[k] == d);
            }
        }
    }
}

impl<T: Copy + Default, R: Dim> DynamicColStorage<T> for VecStorageRM<T, R, Dynamic> {
    fn set_cols(&mut self, count: usize) {
        let rows = self.size.rows();
        let old_cols = self.size.cols();
        let d = T::default();
        let new_data = rebuild_lines(&self.data, rows, old_cols, count, d);
        self.data = new_data;
        self.size.cols = Dynamic::new(count);
        proof {
            let oc = old(self).spec_cols() as int;
            let orows = old(self).spec_rows() as int;
            assert forall|r: int, c: int|
                0 <= r < orows && 0 <= c < oc && c < count implies #[trigger] self.spec_at(r, c)
                == old(self).spec_at(r, c) by {
                assert(self.data@[flat_pos(r, count as int, c)] == old(self).data@[flat_pos(
                    r,
                    oc,
                    c,
                )]);
                assert(self.spec_row_stride() == count as nat);
                assert(self.spec_offset() == 0 && self.spec_col_stride() == 1);
                assert(lin_index(0, r, count as int, c, 1) == flat_pos(r, count as int, c));
                assert(self.spec_index(r, c) == flat_pos(r, count as int, c));
                assert(old(self).spec_index(r, c) == flat_pos(r, oc, c));
            }
            assert forall|r: int, c: int|
                0 <= r < orows && oc <= c < count implies call_ensures(
                <T as Default>::default,
                (),
                #[trigger] self.spec_at(r, c),
            ) by {
                assert(self.data@[flat_pos(r, count as int, c)] == d);
                assert(self.spec_row_stride() == count as nat);
                assert(self.spec_offset() == 0 && self.spec_col_stride() == 1);
                assert(lin_index(0, r, count as int, c, 1) == flat_pos(r, count as int, c));
                assert(self.spec_index(r, c) == flat_pos(r, count as int, c));
            }
        }
    }
}

impl<T: Copy, R: Dim, C: Dim> StorageConstructor<T> for VecStorageRM<T, R, C> {
    fn from_value(s: Size<R, C>, value: T) -> Self {
        let len = s.len();
        let data = filled_vec(len, value);
        let r = VecStorageRM { data, size: s };
        proof {
            assert forall|i: int, j: int|
                0 <= i < s.spec_rows() && 0 <= j < s.spec_cols() implies #[trigger] r.spec_at(i, j)
                == value by {
                assert(0 <= lin_index(0, i, s.spec_cols() as int, j, 1) < s.spec_len())
                    by (nonlinear_arith)
                    requires
                        0 <= i < s.spec_rows(),
                        0 <= j < s.spec_cols(),
                ;
            }
        }
        r
    }
}

impl<T: Copy, R: Dim, C: Dim> Ownable<T> for VecStorageRM<T, R, C> {
    type OwnedType = Self;

    fn owned(self) -> Container<T, Self> {
        Container::new(self)
    }

    fn clone_owned(&self) -> Container<T, Self> {
        let data = copy_vec(&self.data);
        Container::new(VecStorageRM { data, size: self.size })
    }
}

impl<T: Copy, R: Dim, C: Dim> InplaceMap<T> for VecStorageRM<T, R, C> {
    fn map_inplace<F: Fn(T) -> T>(&mut self, f: F) {
        let n = self.data.len();
        let mut i: usize = 0;
        while i < n
            invariant
                i <= n,
                n == self.data@.len(),
                self.size == old(self).size,
                forall|x: T| f.requires((x,)),
                forall|k: int|
                    0 <= k < i ==> f.ensures((old(self).data@[k],), #[trigger] self.data@[k]),
                forall|k: int| i <= k < n ==> self.data@[k] == old(self).data@[k],
            decreases n - i,
        {
            let x = self.data[i];
            let y = f(x);
            self.data[i] = y;
            i += 1;
        }
    }
}

impl<T: Copy, R: Dim, C: Dim> InplaceMapOrdered<T> for VecStorageRM<T, R, C> {
    fn map_inplace_ordered<F: Fn(T) -> T>(&mut self, f: F) {
        self.map_inplace(f)
    }
}

} // verus!
