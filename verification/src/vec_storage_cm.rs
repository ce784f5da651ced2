//! The owned column-major storage: a heap-backed buffer in which consecutive
//! elements of a column are contiguous, so strides are `(1, rows)`. Growing
//! or shrinking the column count is a pure append or truncation of trailing
//! memory; changing the row count relays the whole buffer. This asymmetry is
//! the strides-transposed mirror image of the row-major storage.
use crate::buffer::copy_vec;
use crate::buffer::filled_vec;
use crate::buffer::rebuild_lines;
use crate::buffer::resize_element_count;
use crate::container::Container;
use crate::dims::Dim;
use crate::dims::Dynamic;
use crate::dims::Size;
use crate::dims::U1;
use crate::layout::flat_pos;
use crate::layout::lemma_col_major_ok;
use crate::layout::lin_index;
use crate::storage::DynamicColStorage;
use crate::storage::DynamicRowStorage;
use crate::storage::InplaceMap;
use crate::storage::InplaceMapOrdered;
use crate::storage::Ownable;
use crate::storage::Storage;
use crate::storage::StorageConstructor;
use crate::storage::StorageMut;
use crate::storage::StorageSize;
use crate::storage::StorageView;
use crate::storage::Strided;
use crate::storage::StridedIndex;
use crate::Error;
use vstd::prelude::*;

verus! {

/// An owned storage whose buffer is laid out column-major: element `(r, c)`
/// lives at offset `r + c * rows`.
#[derive(Debug, Clone, PartialEq, Eq)]
pub struct VecStorageCM<T, R: Dim, C: Dim> {
    pub data: Vec<T>,
    pub size: Size<R, C>,
}

impl<T: Copy, R: Dim, C: Dim> VecStorageCM<T, R, C> {
    /// Creates a storage over `data`, which must hold exactly
    /// `size.rows * size.cols` elements, or fails with
    /// `Error::DimensionMismatch`.
    pub fn from_data(size: Size<R, C>, data: Vec<T>) -> (res: Result<Self, Error>)
        ensures
            match res {
                Ok(s) => {
                    &&& size.spec_len() == data@.len()
                    &&& s.wf()
                    &&& s.size == size
                    &&& s.spec_buf() == data@
                },
                Err(e) => e == Error::DimensionMismatch && size.spec_len() != data@.len(),
            },
    {
        let data_len = data.len();
        match size.checked_len() {
            Some(l) => {
                if l == data_len {
                    Ok(VecStorageCM { data, size })
                } else {
                    Err(Error::DimensionMismatch)
                }
            },
            None => Err(Error::DimensionMismatch),
        }
    }

    /// Creates a storage over `data`, which must hold exactly `rows * cols`
    /// elements, or fails with `Error::DimensionMismatch`.
    pub fn new(rows: R, cols: C, data: Vec<T>) -> (res: Result<Self, Error>)
        ensures
            match res {
                Ok(s) => {
                    &&& rows.spec_value() * cols.spec_value() == data@.len()
                    &&& s.wf()
                    &&& s.spec_rows() == rows.spec_value()
                    &&& s.spec_cols() == cols.spec_value()
                    &&& s.spec_buf() == data@
                },
                Err(e) => e == Error::DimensionMismatch && rows.spec_value() * cols.spec_value()
                    != data@.len(),
            },
    {
        Self::from_data(Size::new(rows, cols), data)
    }
}

impl<T, R: Dim, C: Dim> StorageSize for VecStorageCM<T, R, C> {
    type Rows = R;

    type Cols = C;

    open spec fn spec_rows(&self) -> nat {
        self.size.spec_rows()
    }

    open spec fn spec_cols(&self) -> nat {
        self.size.spec_cols()
    }

    fn row_dim(&self) -> R {
        self.size.row_dim()
    }

    fn col_dim(&self) -> C {
        self.size.col_dim()
    }
}

impl<T, R: Dim, C: Dim> Strided for VecStorageCM<T, R, C> {
    type RowStride = U1;

    type ColStride = R;

    open spec fn spec_row_stride(&self) -> nat {
        1
    }

    open spec fn spec_col_stride(&self) -> nat {
        self.size.spec_rows()
    }

    open spec fn spec_offset(&self) -> nat {
        0
    }

    fn row_stride_dim(&self) -> U1 {
        let d = U1;
        proof {
            assert(d.spec_value() == 1);
        }
        d
    }

    fn col_stride_dim(&self) -> R {
        self.size.row_dim()
    }

    fn offset(&self) -> usize {
        0
    }
}

impl<T: Copy, R: Dim, C: Dim> Storage<T> for VecStorageCM<T, R, C> {
    open spec fn spec_buf(&self) -> Seq<T> {
        self.data@
    }

    open spec fn wf(&self) -> bool {
        &&& self.data@.len() == self.size.spec_len()
        &&& self.size.spec_len() <= usize::MAX
    }

    proof fn lemma_wf(&self) {
        let rows = self.size.spec_rows() as int;
        let cols = self.size.spec_cols() as int;
        let len = self.data@.len() as int;
        assert(rows * cols == self.size.spec_len());
        lemma_col_major_ok(rows, cols, len);
        assert(crate::layout::layout_ok(
            self.spec_offset() as int,
            self.spec_rows() as int,
            self.spec_row_stride() as int,
            self.spec_cols() as int,
            self.spec_col_stride() as int,
            self.spec_buf().len() as int,
        ));
    }

    fn read_index(&self, i: usize) -> T {
        self.data[i]
    }

    fn as_slice(&self) -> &[T] {
        self.data.as_slice()
    }
}

impl<T: Copy, R: Dim, C: Dim> StorageMut<T> for VecStorageCM<T, R, C> {
    fn set_index(&mut self, i: usize, v: T) {
        self.data[i] = v;
    }
}

impl<T: Copy + Default, R: Dim> DynamicColStorage<T> for VecStorageCM<T, R, Dynamic> {
    fn set_cols(&mut self, count: usize) {
        let rows = self.size.rows();
        let new_len = rows * count;
        let d = T::default();
        resize_element_count(&mut self.data, new_len, d);
        self.size.cols = Dynamic::new(count);
        proof {
            let orows = old(self).spec_rows() as int;
            let oc = old(self).spec_cols() as int;
            assert(new_len as int == orows * count);
            assert(old(self).data@.len() as int == orows * oc);
            assert forall|r: int, c: int|
                0 <= r < orows && 0 <= c < oc && c < count implies #[trigger] self.spec_at(r, c)
                == old(self).spec_at(r, c) by {
                let k = r + c * orows;
                assert(0 <= k && k < orows * count && k < orows * oc) by (nonlinear_arith)
                    requires
                        0 <= r < orows,
                        0 <= c < oc,
                        c < count,
                        k == r + c * orows,
                ;
                assert(self.spec_row_stride() == 1 && self.spec_offset() == 0);
                assert(self.spec_col_stride() as int == orows);
                assert(lin_index(0, r, 1, c, orows) == k);
                assert(self.spec_index(r, c) == k);
                assert(old(self).spec_index(r, c) == k);
                assert(self.data@[k] == old(self).data@[k]);
            }
            assert forall|r: int, c: int|
                0 <= r < orows && oc <= c < count implies call_ensures(
                <T as Default>::default,
                (),
                #[trigger] self.spec_at(r, c),
            ) by {
                let k = r + c * orows;
                assert(orows * oc <= k && k < orows * count) by (nonlinear_arith)
                    requires
                        0 <= r < orows,
                        oc <= c < count,
                        k == r + c * orows,
                ;
                assert(self.spec_col_stride() as int == orows);
                assert(lin_index(0, r, 1, c, orows) == k);
                assert(self.spec_index(r, c) == k);
                assert(self.data@[k] == d);
            }
        }
    }
}

impl<T: Copy + Default, C: Dim> DynamicRowStorage<T> for VecStorageCM<T, Dynamic, C> {
    fn set_rows(&mut self, count: usize) {
        let old_rows = self.size.rows();
        let cols = self.size.cols();
        let d = T::default();
        proof {
            let olen = old(self).data@.len();
            let slen = old(self).size.spec_len();
            let orows = old(self).spec_rows();
            let ocols = old(self).spec_cols();
            assert(olen == cols * old_rows && cols * count <= usize::MAX) by (nonlinear_arith)
                requires
                    olen == slen,
                    slen == orows * ocols,
                    count * ocols <= usize::MAX,
                    old_rows as nat == orows,
                    cols as nat == ocols,
            ;
        }
        let new_data = rebuild_lines(&self.data, cols, old_rows, count, d);
        self.data = new_data;
        self.size.rows = Dynamic::new(count);
        proof {
            let orows = old(self).spec_rows() as int;
            let oc = old(self).spec_cols() as int;
            assert(self.data@.len() == self.size.spec_len()) by (nonlinear_arith)
                requires
                    self.data@.len() == (cols as nat) * (count as nat),
                    self.size.spec_len() == (count as nat) * (cols as nat),
            ;
            assert forall|r: int, c: int|
                0 <= r < orows && r < count && 0 <= c < oc implies #[trigger] self.spec_at(r, c)
                == old(self).spec_at(r, c) by {
                assert(self.data@[flat_pos(c, count as int, r)] == old(self).data@[flat_pos(
                    c,
                    orows,
                    r,
                )]);
                assert(self.spec_col_stride() == count as nat);
                assert(self.spec_row_stride() == 1 && self.spec_offset() == 0);
                assert(lin_index(0, r, 1, c, count as int) == flat_pos(c, count as int, r));
                assert(self.spec_index(r, c) == flat_pos(c, count as int, r));
                assert(lin_index(0, r, 1, c, orows) == flat_pos(c, orows, r));
                assert(old(self).spec_index(r, c) == flat_pos(c, orows, r));
            }
            assert forall|r: int, c: int|
                orows <= r < count && 0 <= c < oc implies call_ensures(
                <T as Default>::default,
                (),
                #[trigger] self.spec_at(r, c),
            ) by {
                assert(self.data@[flat_pos(c, count as int, r)] == d);
                assert(self.spec_col_stride() == count as nat);
                assert(lin_index(0, r, 1, c, count as int) == flat_pos(c, count as int, r));
                assert(self.spec_index(r, c) == flat_pos(c, count as int, r));
            }
        }
    }
}

impl<T: Copy, R: Dim, C: Dim> StorageConstructor<T> for VecStorageCM<T, R, C> {
    fn from_value(s: Size<R, C>, value: T) -> Self {
        let len = s.len();
        let data = filled_vec(len, value);
        let r = VecStorageCM { data, size: s };
        proof {
            assert forall|i: int, j: int|
                0 <= i < s.spec_rows() && 0 <= j < s.spec_cols() implies #[trigger] r.spec_at(i, j)
                == value by {
                assert(0 <= lin_index(0, i, 1, j, s.spec_rows() as int) < s.spec_len())
                    by (nonlinear_arith)
                    requires
                        0 <= i < s.spec_rows(),
                        0 <= j < s.spec_cols(),
                ;
            }
        }
        r
    }
}

impl<T: Copy, R: Dim, C: Dim> Ownable<T> for VecStorageCM<T, R, C> {
    type OwnedType = Self;

    fn owned(self) -> Container<T, Self> {
        Container::new(self)
    }

    fn clone_owned(&self) -> Container<T, Self> {
        let data = copy_vec(&self.data);
        Container::new(VecStorageCM { data, size: self.size })
    }
}

impl<T: Copy, R: Dim, C: Dim> InplaceMap<T> for VecStorageCM<T, R, C> {
    fn map_inplace<F: Fn(T) -> T>(&mut self, f: F) {
        let n = self.data.len();
        let mut i: usize = 0;
        while i < n
            invariant
                i <= n,
                n == self.data@.len(),
                self.size == old(self).size,
                forall|x: T| f.requires((x,)),
                forall|k: int|
                    0 <= k < i ==> f.ensures((old(self).data@[k],), #[trigger] self.data@[k]),
                forall|k: int| i <= k < n ==> self.data@[k] == old(self).data@[k],
            decreases n - i,
        {
            let x = self.data[i];
            let y = f(x);
            self.data[i] = y;
            i += 1;
        }
    }
}

impl<T: Copy, R: Dim, C: Dim> InplaceMapOrdered<T> for VecStorageCM<T, R, C> {
    fn map_inplace_ordered<F: Fn(T) -> T>(&mut self, f: F) {
        self.map_inplace(f)
    }
}

} // verus!
