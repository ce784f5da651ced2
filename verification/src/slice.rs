//! Slices: zero-copy sub-region access over any storage. A slice wraps a
//! view; splitting partitions it into two disjoint slices over the same
//! buffer, with identical strides, covering the leading `pos` and the
//! remaining extents of the chosen axis.
use crate::container::Container;
use crate::dims::Dim;
use crate::dims::DimSub;
use crate::dims::Dynamic;
use crate::dims::Size;
use crate::dims::U1;
use crate::layout::layout_ok;
use crate::layout::lemma_lin_rebase;
use crate::layout::lemma_subview_ok;
use crate::layout::lin_index;
use crate::storage::Ownable;
use crate::storage::Storage;
use crate::storage::StorageMut;
use crate::storage::StorageSize;
use crate::storage::StorageView;
use crate::storage::Strided;
use crate::storage::StridedIndex;
use crate::view::RefStorage;
use crate::view::RefStorageMut;
use crate::Error;
use core::marker::PhantomData;
use core::ops::Range;
use vstd::prelude::*;

verus! {

/// A container of references: a slice wrapping a view storage.
#[derive(Debug)]
pub struct SliceBase<T, S> {
    pub storage: S,
    pub elem: PhantomData<T>,
}

/// A slice reading scalar values through a shared view.
pub type Slice<'a, T, R, RS, C, CS> = SliceBase<T, RefStorage<'a, T, R, RS, C, CS>>;

/// A slice writing scalar values through an exclusive view descriptor.
pub type SliceMut<T, R, RS, C, CS> = SliceBase<T, RefStorageMut<T, R, RS, C, CS>>;

impl<T, S> SliceBase<T, S> {
    /// Wraps a view storage.
    pub fn new(storage: S) -> (s: Self)
        ensures
            s.storage == storage,
    {
        SliceBase { storage, elem: PhantomData }
    }

    /// Unwraps the view storage.
    pub fn into_storage(self) -> (s: S)
        ensures
            s == self.storage,
    {
        self.storage
    }

    /// Returns the view storage.
    pub fn storage(&self) -> (s: &S)
        ensures
            s == &self.storage,
    {
        &self.storage
    }

    /// Returns the view storage for mutation.
    pub fn storage_mut(&mut self) -> (s: &mut S)
        ensures
            *s == old(self).storage,
            final(self).storage == *final(s),
            final(self).elem == old(self).elem,
    {
        &mut self.storage
    }
}

impl<T, S: StorageSize> StorageSize for SliceBase<T, S> {
    type Rows = S::Rows;

    type Cols = S::Cols;

    open spec fn spec_rows(&self) -> nat {
        self.storage.spec_rows()
    }

    open spec fn spec_cols(&self) -> nat {
        self.storage.spec_cols()
    }

    fn row_dim(&self) -> S::Rows {
        self.storage.row_dim()
    }

    fn col_dim(&self) -> S::Cols {
        self.storage.col_dim()
    }
}

impl<T, S: Strided> Strided for SliceBase<T, S> {
    type RowStride = S::RowStride;

    type ColStride = S::ColStride;

    open spec fn spec_row_stride(&self) -> nat {
        self.storage.spec_row_stride()
    }

    open spec fn spec_col_stride(&self) -> nat {
        self.storage.spec_col_stride()
    }

    open spec fn spec_offset(&self) -> nat {
        self.storage.spec_offset()
    }

    fn row_stride_dim(&self) -> S::RowStride {
        self.storage.row_stride_dim()
    }

    fn col_stride_dim(&self) -> S::ColStride {
        self.storage.col_stride_dim()
    }

    fn offset(&self) -> usize {
        self.storage.offset()
    }
}

impl<T: Copy, S: Storage<T>> Storage<T> for SliceBase<T, S> {
    open spec fn spec_buf(&self) -> Seq<T> {
        self.storage.spec_buf()
    }

    open spec fn wf(&self) -> bool {
        self.storage.wf()
    }

    proof fn lemma_wf(&self) {
        self.storage.lemma_wf();
        assert(layout_ok(
            self.spec_offset() as int,
            self.spec_rows() as int,
            self.spec_row_stride() as int,
            self.spec_cols() as int,
            self.spec_col_stride() as int,
            self.spec_buf().len() as int,
        ));
    }

    fn read_index(&self, i: usize) -> T {
        self.storage.read_index(i)
    }

    fn as_slice(&self) -> &[T] {
        self.storage.as_slice()
    }
}

impl<T: Copy, S: StorageMut<T>> StorageMut<T> for SliceBase<T, S> {
    fn set_index(&mut self, i: usize, v: T) {
        self.storage.set_index(i, v)
    }
}

impl<T: Copy, S: crate::storage::InplaceMap<T>> crate::storage::InplaceMap<T> for SliceBase<
    T,
    S,
> {
    fn map_inplace<F: Fn(T) -> T>(&mut self, f: F) {
        self.storage.map_inplace(f)
    }
}

impl<T: Copy, S: crate::storage::InplaceMapOrdered<T>> crate::storage::InplaceMapOrdered<
    T,
> for SliceBase<T, S> {
    fn map_inplace_ordered<F: Fn(T) -> T>(&mut self, f: F) {
        self.storage.map_inplace_ordered(f)
    }
}

impl<T: Copy, S: Ownable<T>> Ownable<T> for SliceBase<T, S> {
    type OwnedType = S::OwnedType;

    fn owned(self) -> Container<T, S::OwnedType> {
        self.storage.owned()
    }

    fn clone_owned(&self) -> Container<T, S::OwnedType> {
        self.storage.clone_owned()
    }
}

impl<'a, T: Copy, R: Dim, RS: Dim, C: Dim, CS: Dim> RefStorage<'a, T, R, RS, C, CS> {
    /// Partitions this view into two disjoint views over the same buffer,
    /// covering rows `[0, pos)` and `[pos, rows)`, with identical strides, or
    /// fails with `Error::DimensionMismatch` when `pos` exceeds the row
    /// extent.
    pub fn split_at_row<P: Dim>(self, pos: P) -> (res: Result<
        (RefStorage<'a, T, P, RS, C, CS>, RefStorage<'a, T, <R as DimSub<P>>::Output, RS, C, CS>),
        Error,
    >) where R: DimSub<P>
        requires
            self.wf(),
        ensures
            match res {
                Ok(lr) => {
                    &&& pos.spec_value() <= self.spec_rows()
                    &&& lr.0.wf()
                    &&& lr.1.wf()
                    &&& lr.0.buf == self.buf
                    &&& lr.1.buf == self.buf
                    &&& lr.0.spec_rows() == pos.spec_value()
                    &&& lr.1.spec_rows() == self.spec_rows() - pos.spec_value()
                    &&& lr.0.spec_cols() == self.spec_cols()
                    &&& lr.1.spec_cols() == self.spec_cols()
                    &&& lr.0.strides == self.strides
                    &&& lr.1.strides == self.strides
                    &&& lr.0.spec_offset() == self.spec_offset()
                    &&& (pos.spec_value() < self.spec_rows() && self.spec_cols() > 0
                        ==> lr.1.spec_offset() == self.spec_index(pos.spec_value() as int, 0))
                },
                Err(e) => e == Error::DimensionMismatch && pos.spec_value() > self.spec_rows(),
            },
    {
        let pv = pos.value();
        let rows = self.size.rows();
        let cols = self.size.cols();
        if pv > rows {
            return Err(Error::DimensionMismatch);
        }
        let noff = if pv < rows && cols > 0 {
            self.get_index(pv, 0)
        } else {
            self.off
        };
        let rest = self.size.row_dim().sub_dim(pos);
        let l = RefStorage {
            buf: self.buf,
            off: self.off,
            size: Size::new(pos, self.size.col_dim()),
            strides: self.strides,
        };
        let r = RefStorage {
            buf: self.buf,
            off: noff,
            size: Size::new(rest, self.size.col_dim()),
            strides: self.strides,
        };
        proof {
            let off = self.off as int;
            let srows = self.spec_rows() as int;
            let scols = self.spec_cols() as int;
            let rs = self.spec_row_stride() as int;
            let cs = self.spec_col_stride() as int;
            let len = self.buf@.len() as int;
            lemma_subview_ok(off, srows, rs, scols, cs, len, 0, 0, pv as int, scols);
            assert(lin_index(off, 0, rs, 0, cs) == off);
            assert(l.wf());
            if pv < rows && cols > 0 {
                lemma_subview_ok(off, srows, rs, scols, cs, len, pv as int, 0, srows - pv, scols);
                assert(r.wf());
            } else {
                assert((srows - pv) * scols == 0) by (nonlinear_arith)
                    requires
                        pv == srows || scols == 0,
                        pv <= srows,
                ;
                assert(r.wf());
            }
        }
        Ok((l, r))
    }

    /// Partitions this view into two disjoint views over the same buffer,
    /// covering columns `[0, pos)` and `[pos, cols)`, with identical strides,
    /// or fails with `Error::DimensionMismatch` when `pos` exceeds the column
    /// extent.
    pub fn split_at_col<P: Dim>(self, pos: P) -> (res: Result<
        (RefStorage<'a, T, R, RS, P, CS>, RefStorage<'a, T, R, RS, <C as DimSub<P>>::Output, CS>),
        Error,
    >) where C: DimSub<P>
        requires
            self.wf(),
        ensures
            match res {
                Ok(lr) => {
                    &&& pos.spec_value() <= self.spec_cols()
                    &&& lr.0.wf()
                    &&& lr.1.wf()
                    &&& lr.0.buf == self.buf
                    &&& lr.1.buf == self.buf
                    &&& lr.0.spec_cols() == pos.spec_value()
                    &&& lr.1.spec_cols() == self.spec_cols() - pos.spec_value()
                    &&& lr.0.spec_rows() == self.spec_rows()
                    &&& lr.1.spec_rows() == self.spec_rows()
                    &&& lr.0.strides == self.strides
                    &&& lr.1.strides == self.strides
                    &&& lr.0.spec_offset() == self.spec_offset()
                    &&& (pos.spec_value() < self.spec_cols() && self.spec_rows() > 0
                        ==> lr.1.spec_offset() == self.spec_index(0, pos.spec_value() as int))
                },
                Err(e) => e == Error::DimensionMismatch && pos.spec_value() > self.spec_cols(),
            },
    {
        let pv = pos.value();
        let rows = self.size.rows();
        let cols = self.size.cols();
        if pv > cols {
            return Err(Error::DimensionMismatch);
        }
        let noff = if pv < cols && rows > 0 {
            self.get_index(0, pv)
        } else {
            self.off
        };
        let rest = self.size.col_dim().sub_dim(pos);
        let l = RefStorage {
            buf: self.buf,
            off: self.off,
            size: Size::new(self.size.row_dim(), pos),
            strides: self.strides,
        };
        let r = RefStorage {
            buf: self.buf,
            off: noff,
            size: Size::new(self.size.row_dim(), rest),
            strides: self.strides,
        };
        proof {
            let off = self.off as int;
            let srows = self.spec_rows() as int;
            let scols = self.spec_cols() as int;
            let rs = self.spec_row_stride() as int;
            let cs = self.spec_col_stride() as int;
            let len = self.buf@.len() as int;
            lemma_subview_ok(off, srows, rs, scols, cs, len, 0, 0, srows, pv as int);
            assert(lin_index(off, 0, rs, 0, cs) == off);
            assert(l.wf());
            if pv < cols && rows > 0 {
                lemma_subview_ok(off, srows, rs, scols, cs, len, 0, pv as int, srows, scols - pv);
                assert(r.wf());
            } else {
                assert(srows * (scols - pv) == 0) by (nonlinear_arith)
                    requires
                        pv == scols || srows == 0,
                        pv <= scols,
                ;
                assert(r.wf());
            }
        }
        Ok((l, r))
    }
}

impl<T: Copy, R: Dim, RS: Dim, C: Dim, CS: Dim> RefStorageMut<T, R, RS, C, CS> {
    /// Partitions this descriptor into two disjoint descriptors over the same
    /// buffer, covering rows `[0, pos)` and `[pos, rows)`, with identical
    /// strides, or fails with `Error::DimensionMismatch` when `pos` exceeds
    /// the row extent.
    pub fn split_at_row<P: Dim>(self, pos: P) -> (res: Result<
        (RefStorageMut<T, P, RS, C, CS>, RefStorageMut<T, <R as DimSub<P>>::Output, RS, C, CS>),
        Error,
    >) where R: DimSub<P>
        requires
            self.wf(),
        ensures
            match res {
                Ok(lr) => {
                    &&& pos.spec_value() <= self.spec_rows()
                    &&& lr.0.wf()
                    &&& lr.1.wf()
                    &&& lr.0.buf_len == self.buf_len
                    &&& lr.1.buf_len == self.buf_len
                    &&& lr.0.spec_rows() == pos.spec_value()
                    &&& lr.1.spec_rows() == self.spec_rows() - pos.spec_value()
                    &&& lr.0.spec_cols() == self.spec_cols()
                    &&& lr.1.spec_cols() == self.spec_cols()
                    &&& lr.0.strides == self.strides
                    &&& lr.1.strides == self.strides
                    &&& lr.0.spec_offset() == self.spec_offset()
                    &&& (pos.spec_value() < self.spec_rows() && self.spec_cols() > 0
                        ==> lr.1.spec_offset() == self.spec_index(pos.spec_value() as int, 0))
                },
                Err(e) => e == Error::DimensionMismatch && pos.spec_value() > self.spec_rows(),
            },
    {
        let pv = pos.value();
        let rows = self.size.rows();
        let cols = self.size.cols();
        if pv > rows {
            return Err(Error::DimensionMismatch);
        }
        let noff = if pv < rows && cols > 0 {
            self.index_of(pv, 0)
        } else {
            self.off
        };
        let rest = self.size.row_dim().sub_dim(pos);
        let l = RefStorageMut {
            off: self.off,
            buf_len: self.buf_len,
            size: Size::new(pos, self.size.col_dim()),
            strides: self.strides,
            elem: PhantomData,
        };
        let r = RefStorageMut {
            off: noff,
            buf_len: self.buf_len,
            size: Size::new(rest, self.size.col_dim()),
            strides: self.strides,
            elem: PhantomData,
        };
        proof {
            let off = self.off as int;
            let srows = self.spec_rows() as int;
            let scols = self.spec_cols() as int;
            let rs = self.spec_row_stride() as int;
            let cs = self.spec_col_stride() as int;
            let len = self.buf_len as int;
            lemma_subview_ok(off, srows, rs, scols, cs, len, 0, 0, pv as int, scols);
            assert(lin_index(off, 0, rs, 0, cs) == off);
            assert(l.wf());
            if pv < rows && cols > 0 {
                lemma_subview_ok(off, srows, rs, scols, cs, len, pv as int, 0, srows - pv, scols);
                assert(r.wf());
            } else {
                assert((srows - pv) * scols == 0) by (nonlinear_arith)
                    requires
                        pv == srows || scols == 0,
                        pv <= srows,
                ;
                assert(r.wf());
            }
        }
        Ok((l, r))
    }

    /// Partitions this descriptor into two disjoint descriptors over the same
    /// buffer, covering columns `[0, pos)` and `[pos, cols)`, with identical
    /// strides, or fails with `Error::DimensionMismatch` when `pos` exceeds
    /// the column extent.
    pub fn split_at_col<P: Dim>(self, pos: P) -> (res: Result<
        (RefStorageMut<T, R, RS, P, CS>, RefStorageMut<T, R, RS, <C as DimSub<P>>::Output, CS>),
        Error,
    >) where C: DimSub<P>
        requires
            self.wf(),
        ensures
            match res {
                Ok(lr) => {
                    &&& pos.spec_value() <= self.spec_cols()
                    &&& lr.0.wf()
                    &&& lr.1.wf()
                    &&& lr.0.buf_len == self.buf_len
                    &&& lr.1.buf_len == self.buf_len
                    &&& lr.0.spec_cols() == pos.spec_value()
                    &&& lr.1.spec_cols() == self.spec_cols() - pos.spec_value()
                    &&& lr.0.spec_rows() == self.spec_rows()
                    &&& lr.1.spec_rows() == self.spec_rows()
                    &&& lr.0.strides == self.strides
                    &&& lr.1.strides == self.strides
                    &&& lr.0.spec_offset() == self.spec_offset()
                    &&& (pos.spec_value() < self.spec_cols() && self.spec_rows() > 0
                        ==> lr.1.spec_offset() == self.spec_index(0, pos.spec_value() as int))
                },
                Err(e) => e == Error::DimensionMismatch && pos.spec_value() > self.spec_cols(),
            },
    {
        let pv = pos.value();
        let rows = self.size.rows();
        let cols = self.size.cols();
        if pv > cols {
            return Err(Error::DimensionMismatch);
        }
        let noff = if pv < cols && rows > 0 {
            self.index_of(0, pv)
        } else {
            self.off
        };
        let rest = self.size.col_dim().sub_dim(pos);
        let l = RefStorageMut {
            off: self.off,
            buf_len: self.buf_len,
            size: Size::new(self.size.row_dim(), pos),
            strides: self.strides,
            elem: PhantomData,
        };
        let r = RefStorageMut {
            off: noff,
            buf_len: self.buf_len,
            size: Size::new(self.size.row_dim(), rest),
            strides: self.strides,
            elem: PhantomData,
        };
        proof {
            let off = self.off as int;
            let srows = self.spec_rows() as int;
            let scols = self.spec_cols() as int;
            let rs = self.spec_row_stride() as int;
            let cs = self.spec_col_stride() as int;
            let len = self.buf_len as int;
            lemma_subview_ok(off, srows, rs, scols, cs, len, 0, 0, srows, pv as int);
            assert(lin_index(off, 0, rs, 0, cs) == off);
            assert(l.wf());
            if pv < cols && rows > 0 {
                lemma_subview_ok(off, srows, rs, scols, cs, len, 0, pv as int, srows, scols - pv);
                assert(r.wf());
            } else {
                assert(srows * (scols - pv) == 0) by (nonlinear_arith)
                    requires
                        pv == scols || srows == 0,
                        pv <= scols,
                ;
                assert(r.wf());
            }
        }
        Ok((l, r))
    }
}

impl<'a, T: Copy, R: Dim, RS: Dim, C: Dim, CS: Dim> Slice<'a, T, R, RS, C, CS> {
    /// Partitions this slice into a top and a bottom slice over the same
    /// buffer, covering rows `[0, pos)` and `[pos, rows)`, or fails with
    /// `Error::DimensionMismatch` when `pos` exceeds the row extent.
    pub fn split_at_row<P: Dim>(self, pos: P) -> (res: Result<
        (Slice<'a, T, P, RS, C, CS>, Slice<'a, T, <R as DimSub<P>>::Output, RS, C, CS>),
        Error,
    >) where R: DimSub<P>
        requires
            self.wf(),
        ensures
            match res {
                Ok(lr) => {
                    &&& pos.spec_value() <= self.spec_rows()
                    &&& lr.0.wf()
                    &&& lr.1.wf()
                    &&& lr.0.spec_buf() == self.spec_buf()
                    &&& lr.1.spec_buf() == self.spec_buf()
                    &&& lr.0.spec_rows() == pos.spec_value()
                    &&& lr.1.spec_rows() == self.spec_rows() - pos.spec_value()
                    &&& lr.0.spec_cols() == self.spec_cols()
                    &&& lr.1.spec_cols() == self.spec_cols()
                    &&& lr.0.spec_row_stride() == self.spec_row_stride()
                    &&& lr.1.spec_row_stride() == self.spec_row_stride()
                    &&& lr.0.spec_col_stride() == self.spec_col_stride()
                    &&& lr.1.spec_col_stride() == self.spec_col_stride()
                    &&& lr.0.spec_offset() == self.spec_offset()
                    &&& (pos.spec_value() < self.spec_rows() && self.spec_cols() > 0
                        ==> lr.1.spec_offset() == self.spec_index(pos.spec_value() as int, 0))
                },
                Err(e) => e == Error::DimensionMismatch && pos.spec_value() > self.spec_rows(),
            },
    {
        match self.into_storage().split_at_row(pos) {
            Ok((l, r)) => Ok((SliceBase::new(l), SliceBase::new(r))),
            Err(e) => Err(e),
        }
    }

    /// Partitions this slice into a left and a right slice over the same
    /// buffer, covering columns `[0, pos)` and `[pos, cols)`, or fails with
    /// `Error::DimensionMismatch` when `pos` exceeds the column extent.
    pub fn split_at_col<P: Dim>(self, pos: P) -> (res: Result<
        (Slice<'a, T, R, RS, P, CS>, Slice<'a, T, R, RS, <C as DimSub<P>>::Output, CS>),
        Error,
    >) where C: DimSub<P>
        requires
            self.wf(),
        ensures
            match res {
                Ok(lr) => {
                    &&& pos.spec_value() <= self.spec_cols()
                    &&& lr.0.wf()
                    &&& lr.1.wf()
                    &&& lr.0.spec_buf() == self.spec_buf()
                    &&& lr.1.spec_buf() == self.spec_buf()
                    &&& lr.0.spec_cols() == pos.spec_value()
                    &&& lr.1.spec_cols() == self.spec_cols() - pos.spec_value()
                    &&& lr.0.spec_rows() == self.spec_rows()
                    &&& lr.1.spec_rows() == self.spec_rows()
                    &&& lr.0.spec_row_stride() == self.spec_row_stride()
                    &&& lr.1.spec_row_stride() == self.spec_row_stride()
                    &&& lr.0.spec_col_stride() == self.spec_col_stride()
                    &&& lr.1.spec_col_stride() == self.spec_col_stride()
                    &&& lr.0.spec_offset() == self.spec_offset()
                    &&& (pos.spec_value() < self.spec_cols() && self.spec_rows() > 0
                        ==> lr.1.spec_offset() == self.spec_index(0, pos.spec_value() as int))
                },
                Err(e) => e == Error::DimensionMismatch && pos.spec_value() > self.spec_cols(),
            },
    {
        match self.into_storage().split_at_col(pos) {
            Ok((l, r)) => Ok((SliceBase::new(l), SliceBase::new(r))),
            Err(e) => Err(e),
        }
    }
}

impl<T: Copy, R: Dim, RS: Dim, C: Dim, CS: Dim> SliceMut<T, R, RS, C, CS> {
    /// Well-formedness: the wrapped descriptor's layout is valid for the
    /// buffer length it was built over.
    pub open spec fn wf(&self) -> bool {
        self.storage.wf()
    }

    /// Returns the element of `src` at logical position `(r, c)` of this
    /// slice, or `Error::IndexOutOfBounds` when the row or column is at or
    /// past the extent.
    pub fn get<S: Storage<T>>(&self, src: &S, r: usize, c: usize) -> (res: Result<T, Error>)
        requires
            self.wf(),
            src.wf(),
            self.storage.buf_len == src.spec_buf().len(),
        ensures
            match res {
                Ok(v) => (r as nat) < self.spec_rows() && (c as nat) < self.spec_cols() && v
                    == src.spec_buf()[self.spec_index(r as int, c as int)],
                Err(e) => e == Error::IndexOutOfBounds && ((r as nat) >= self.spec_rows() || (
                c as nat) >= self.spec_cols()),
            },
    {
        self.storage.get_in(src, r, c)
    }

    /// Overwrites the element of `target` at logical position `(r, c)` of
    /// this slice, or returns `Error::IndexOutOfBounds` when the row or
    /// column is at or past the extent, leaving the target unchanged.
    pub fn set<S: StorageMut<T>>(&self, target: &mut S, r: usize, c: usize, v: T) -> (res: Result<
        (),
        Error,
    >)
        requires
            self.wf(),
            old(target).wf(),
            self.storage.buf_len == old(target).spec_buf().len(),
        ensures
            final(target).wf(),
            final(target).spec_rows() == old(target).spec_rows(),
            final(target).spec_cols() == old(target).spec_cols(),
            final(target).spec_row_stride() == old(target).spec_row_stride(),
            final(target).spec_col_stride() == old(target).spec_col_stride(),
            final(target).spec_offset() == old(target).spec_offset(),
            match res {
                Ok(()) => (r as nat) < self.spec_rows() && (c as nat) < self.spec_cols() && final(target).spec_buf() == old(target).spec_buf().update(
                    self.spec_index(r as int, c as int),
                    v,
                ),
                Err(e) => e == Error::IndexOutOfBounds && ((r as nat) >= self.spec_rows() || (
                c as nat) >= self.spec_cols()) && final(target).spec_buf() == old(target).spec_buf(),
            },
    {
        self.storage.set_in(target, r, c, v)
    }

    /// Partitions this slice into a top and a bottom slice over the same
    /// buffer, covering rows `[0, pos)` and `[pos, rows)`, or fails with
    /// `Error::DimensionMismatch` when `pos` exceeds the row extent.
    pub fn split_at_row<P: Dim>(self, pos: P) -> (res: Result<
        (SliceMut<T, P, RS, C, CS>, SliceMut<T, <R as DimSub<P>>::Output, RS, C, CS>),
        Error,
    >) where R: DimSub<P>
        requires
            self.wf(),
        ensures
            match res {
                Ok(lr) => {
                    &&& pos.spec_value() <= self.spec_rows()
                    &&& lr.0.wf()
                    &&& lr.1.wf()
                    &&& lr.0.storage.buf_len == self.storage.buf_len
                    &&& lr.1.storage.buf_len == self.storage.buf_len
                    &&& lr.0.spec_rows() == pos.spec_value()
                    &&& lr.1.spec_rows() == self.spec_rows() - pos.spec_value()
                    &&& lr.0.spec_cols() == self.spec_cols()
                    &&& lr.1.spec_cols() == self.spec_cols()
                    &&& lr.0.spec_row_stride() == self.spec_row_stride()
                    &&& lr.1.spec_row_stride() == self.spec_row_stride()
                    &&& lr.0.spec_col_stride() == self.spec_col_stride()
                    &&& lr.1.spec_col_stride() == self.spec_col_stride()
                    &&& lr.0.spec_offset() == self.spec_offset()
                    &&& (pos.spec_value() < self.spec_rows() && self.spec_cols() > 0
                        ==> lr.1.spec_offset() == self.spec_index(pos.spec_value() as int, 0))
                },
                Err(e) => e == Error::DimensionMismatch && pos.spec_value() > self.spec_rows(),
            },
    {
        match self.into_storage().split_at_row(pos) {
            Ok((l, r)) => Ok((SliceBase::new(l), SliceBase::new(r))),
            Err(e) => Err(e),
        }
    }

    /// Partitions this slice into a left and a right slice over the same
    /// buffer, covering columns `[0, pos)` and `[pos, cols)`, or fails with
    /// `Error::DimensionMismatch` when `pos` exceeds the column extent.
    pub fn split_at_col<P: Dim>(self, pos: P) -> (res: Result<
        (SliceMut<T, R, RS, P, CS>, SliceMut<T, R, RS, <C as DimSub<P>>::Output, CS>),
        Error,
    >) where C: DimSub<P>
        requires
            self.wf(),
        ensures
            match res {
                Ok(lr) => {
                    &&& pos.spec_value() <= self.spec_cols()
                    &&& lr.0.wf()
                    &&& lr.1.wf()
                    &&& lr.0.storage.buf_len == self.storage.buf_len
                    &&& lr.1.storage.buf_len == self.storage.buf_len
                    &&& lr.0.spec_cols() == pos.spec_value()
                    &&& lr.1.spec_cols() == self.spec_cols() - pos.spec_value()
                    &&& lr.0.spec_rows() == self.spec_rows()
                    &&& lr.1.spec_rows() == self.spec_rows()
                    &&& lr.0.spec_row_stride() == self.spec_row_stride()
                    &&& lr.1.spec_row_stride() == self.spec_row_stride()
                    &&& lr.0.spec_col_stride() == self.spec_col_stride()
                    &&& lr.1.spec_col_stride() == self.spec_col_stride()
                    &&& lr.0.spec_offset() == self.spec_offset()
                    &&& (pos.spec_value() < self.spec_cols() && self.spec_rows() > 0
                        ==> lr.1.spec_offset() == self.spec_index(0, pos.spec_value() as int))
                },
                Err(e) => e == Error::DimensionMismatch && pos.spec_value() > self.spec_cols(),
            },
    {
        match self.into_storage().split_at_col(pos) {
            Ok((l, r)) => Ok((SliceBase::new(l), SliceBase::new(r))),
            Err(e) => Err(e),
        }
    }
}

/// A contiguous index range along one axis: either a run-time `start..end`
/// range or a single index, which selects a one-wide range.
pub trait SliceRange {
    /// The kind of the selected extent.
    type Size: Dim;

    /// The first selected index.
    spec fn spec_start(&self) -> nat;

    /// One past the last selected index.
    spec fn spec_end(&self) -> nat;

    /// Returns the first selected index.
    fn start(&self) -> (s: usize)
        ensures
            s as nat == self.spec_start(),
    ;

    /// Returns one past the last selected index.
    fn end(&self) -> (e: usize)
        requires
            self.spec_end() <= usize::MAX,
        ensures
            e as nat == self.spec_end(),
    ;

    /// Returns the selected extent.
    fn size_dim(&self) -> (d: Self::Size)
        requires
            self.spec_start() <= self.spec_end() <= usize::MAX,
        ensures
            d.spec_value() == self.spec_end() - self.spec_start(),
    ;
}

impl SliceRange for Range<usize> {
    type Size = Dynamic;

    open spec fn spec_start(&self) -> nat {
        self.start as nat
    }

    open spec fn spec_end(&self) -> nat {
        self.end as nat
    }

    fn start(&self) -> usize {
        self.start
    }

    fn end(&self) -> usize {
        self.end
    }

    fn size_dim(&self) -> Dynamic {
        Dynamic::new(self.end - self.start)
    }
}

impl SliceRange for usize {
    type Size = U1;

    open spec fn spec_start(&self) -> nat {
        *self as nat
    }

    open spec fn spec_end(&self) -> nat {
        *self as nat + 1
    }

    fn start(&self) -> usize {
        *self
    }

    fn end(&self) -> usize {
        *self + 1
    }

    fn size_dim(&self) -> U1 {
        let d = U1;
        proof {
            assert(d.spec_value() == 1);
        }
        d
    }
}

/// Zero-copy slicing, available on every storage: selecting a contiguous
/// sub-range of rows or of columns yields a view over the same buffer with
/// the same strides and a rebased offset.
pub trait Sliceable<T: Copy>: Storage<T> {
    /// Returns a shared slice over the rows `range` selects.
    fn slice_rows<'a, RR: SliceRange>(&'a self, range: RR) -> (sl: Slice<
        'a,
        T,
        RR::Size,
        Self::RowStride,
        Self::Cols,
        Self::ColStride,
    >)
        requires
            self.wf(),
            range.spec_start() <= range.spec_end(),
            range.spec_end() <= self.spec_rows(),
        ensures
            sl.wf(),
            sl.spec_buf() == self.spec_buf(),
            sl.spec_rows() == range.spec_end() - range.spec_start(),
            sl.spec_cols() == self.spec_cols(),
            sl.spec_row_stride() == self.spec_row_stride(),
            sl.spec_col_stride() == self.spec_col_stride(),
            forall|r: int, c: int|
                0 <= r < range.spec_end() - range.spec_start() && 0 <= c < self.spec_cols()
                    ==> #[trigger] sl.spec_at(r, c) == self.spec_at(range.spec_start() + r, c),
    {
        let rows = self.rows();
        let cols = self.cols();
        let start = range.start();
        let nrows = range.size_dim();
        let noff = if start < rows && cols > 0 {
            self.get_index(start, 0)
        } else {
            self.offset()
        };
        let size = Size::new(nrows, self.col_dim());
        let st = self.strides();
        proof {
            self.lemma_wf();
            let off = self.spec_offset() as int;
            let srows = self.spec_rows() as int;
            let scols = self.spec_cols() as int;
            let rs = self.spec_row_stride() as int;
            let cs = self.spec_col_stride() as int;
            let len = self.spec_buf().len() as int;
            let s0 = range.spec_start() as int;
            let n = range.spec_end() - range.spec_start();
            if start < rows && cols > 0 {
                lemma_subview_ok(off, srows, rs, scols, cs, len, s0, 0, n as int, scols);
            } else {
                assert((n as int) * scols == 0) by (nonlinear_arith)
                    requires
                        n == 0 || scols == 0,
                        0 <= n,
                ;
                assert(layout_ok(self.spec_offset() as int, n as int, rs, scols, cs, len));
            }
        }
        let v = RefStorage::new(self.as_slice(), noff, size, st);
        let sl = SliceBase::new(v);
        proof {
            let off = self.spec_offset() as int;
            let rs = self.spec_row_stride() as int;
            let cs = self.spec_col_stride() as int;
            let s0 = range.spec_start() as int;
            let n = range.spec_end() - range.spec_start();
            assert forall|r: int, c: int|
                0 <= r < n && 0 <= c < self.spec_cols() implies #[trigger] sl.spec_at(r, c)
                == self.spec_at(s0 + r, c) by {
                lemma_lin_rebase(off, rs, cs, s0, 0, r, c);
                assert(lin_index(off, s0, rs, 0, cs) == sl.spec_offset() as int);
            }
        }
        sl
    }

    /// Returns a shared slice over the columns `range` selects.
    fn slice_cols<'a, RR: SliceRange>(&'a self, range: RR) -> (sl: Slice<
        'a,
        T,
        Self::Rows,
        Self::RowStride,
        RR::Size,
        Self::ColStride,
    >)
        requires
            self.wf(),
            range.spec_start() <= range.spec_end(),
            range.spec_end() <= self.spec_cols(),
        ensures
            sl.wf(),
            sl.spec_buf() == self.spec_buf(),
            sl.spec_cols() == range.spec_end() - range.spec_start(),
            sl.spec_rows() == self.spec_rows(),
            sl.spec_row_stride() == self.spec_row_stride(),
            sl.spec_col_stride() == self.spec_col_stride(),
            forall|r: int, c: int|
                0 <= r < self.spec_rows() && 0 <= c < range.spec_end() - range.spec_start()
                    ==> #[trigger] sl.spec_at(r, c) == self.spec_at(r, range.spec_start() + c),
    {
        let rows = self.rows();
        let cols = self.cols();
        let start = range.start();
        let ncols = range.size_dim();
        let noff = if start < cols && rows > 0 {
            self.get_index(0, start)
        } else {
            self.offset()
        };
        let size = Size::new(self.row_dim(), ncols);
        let st = self.strides();
        proof {
            self.lemma_wf();
            let off = self.spec_offset() as int;
            let srows = self.spec_rows() as int;
            let scols = self.spec_cols() as int;
            let rs = self.spec_row_stride() as int;
            let cs = self.spec_col_stride() as int;
            let len = self.spec_buf().len() as int;
            let s0 = range.spec_start() as int;
            let n = range.spec_end() - range.spec_start();
            if start < cols && rows > 0 {
                lemma_subview_ok(off, srows, rs, scols, cs, len, 0, s0, srows, n as int);
            } else {
                assert(srows * (n as int) == 0) by (nonlinear_arith)
                    requires
                        n == 0 || srows == 0,
                        0 <= n,
                ;
                assert(layout_ok(self.spec_offset() as int, srows, rs, n as int, cs, len));
            }
        }
        let v = RefStorage::new(self.as_slice(), noff, size, st);
        let sl = SliceBase::new(v);
        proof {
            let off = self.spec_offset() as int;
            let rs = self.spec_row_stride() as int;
            let cs = self.spec_col_stride() as int;
            let s0 = range.spec_start() as int;
            let n = range.spec_end() - range.spec_start();
            assert forall|r: int, c: int|
                0 <= r < self.spec_rows() && 0 <= c < n implies #[trigger] sl.spec_at(r, c)
                == self.spec_at(r, s0 + c) by {
                lemma_lin_rebase(off, rs, cs, 0, s0, r, c);
                assert(lin_index(off, 0, rs, s0, cs) == sl.spec_offset() as int);
            }
        }
        sl
    }

    /// Returns an exclusive slice descriptor over the rows `range` selects.
    /// Reading and writing through it take the storage it was derived from.
    fn slice_rows_mut<RR: SliceRange>(&self, range: RR) -> (sl: SliceMut<
        T,
        RR::Size,
        Self::RowStride,
        Self::Cols,
        Self::ColStride,
    >)
        requires
            self.wf(),
            range.spec_start() <= range.spec_end(),
            range.spec_end() <= self.spec_rows(),
        ensures
            sl.wf(),
            sl.storage.buf_len == self.spec_buf().len(),
            sl.spec_rows() == range.spec_end() - range.spec_start(),
            sl.spec_cols() == self.spec_cols(),
            sl.spec_row_stride() == self.spec_row_stride(),
            sl.spec_col_stride() == self.spec_col_stride(),
            forall|r: int, c: int|
                0 <= r < range.spec_end() - range.spec_start() && 0 <= c < self.spec_cols()
                    ==> #[trigger] sl.spec_index(r, c) == self.spec_index(
                    range.spec_start() + r,
                    c,
                ),
    {
        let rows = self.rows();
        let cols = self.cols();
        let start = range.start();
        let nrows = range.size_dim();
        let noff = if start < rows && cols > 0 {
            self.get_index(start, 0)
        } else {
            self.offset()
        };
        let size = Size::new(nrows, self.col_dim());
        let st = self.strides();
        let bl = self.as_slice().len();
        proof {
            self.lemma_wf();
            let off = self.spec_offset() as int;
            let srows = self.spec_rows() as int;
            let scols = self.spec_cols() as int;
            let rs = self.spec_row_stride() as int;
            let cs = self.spec_col_stride() as int;
            let len = self.spec_buf().len() as int;
            let s0 = range.spec_start() as int;
            let n = range.spec_end() - range.spec_start();
            if start < rows && cols > 0 {
                lemma_subview_ok(off, srows, rs, scols, cs, len, s0, 0, n as int, scols);
            } else {
                assert((n as int) * scols == 0) by (nonlinear_arith)
                    requires
                        n == 0 || scols == 0,
                        0 <= n,
                ;
                assert(layout_ok(self.spec_offset() as int, n as int, rs, scols, cs, len));
            }
        }
        let v = RefStorageMut::new(noff, bl, size, st);
        let sl = SliceBase::new(v);
        proof {
            let off = self.spec_offset() as int;
            let rs = self.spec_row_stride() as int;
            let cs = self.spec_col_stride() as int;
            let s0 = range.spec_start() as int;
            let n = range.spec_end() - range.spec_start();
            assert forall|r: int, c: int|
                0 <= r < n && 0 <= c < self.spec_cols() implies #[trigger] sl.spec_index(r, c)
                == self.spec_index(s0 + r, c) by {
                lemma_lin_rebase(off, rs, cs, s0, 0, r, c);
                assert(lin_index(off, s0, rs, 0, cs) == sl.spec_offset() as int);
            }
        }
        sl
    }

    /// Returns an exclusive slice descriptor over the columns `range`
    /// selects. Reading and writing through it take the storage it was
    /// derived from.
    fn slice_cols_mut<RR: SliceRange>(&self, range: RR) -> (sl: SliceMut<
        T,
        Self::Rows,
        Self::RowStride,
        RR::Size,
        Self::ColStride,
    >)
        requires
            self.wf(),
            range.spec_start() <= range.spec_end(),
            range.spec_end() <= self.spec_cols(),
        ensures
            sl.wf(),
            sl.storage.buf_len == self.spec_buf().len(),
            sl.spec_cols() == range.spec_end() - range.spec_start(),
            sl.spec_rows() == self.spec_rows(),
            sl.spec_row_stride() == self.spec_row_stride(),
            sl.spec_col_stride() == self.spec_col_stride(),
            forall|r: int, c: int|
                0 <= r < self.spec_rows() && 0 <= c < range.spec_end() - range.spec_start()
                    ==> #[trigger] sl.spec_index(r, c) == self.spec_index(
                    r,
                    range.spec_start() + c,
                ),
    {
        let rows = self.rows();
        let cols = self.cols();
        let start = range.start();
        let ncols = range.size_dim();
        let noff = if start < cols && rows > 0 {
            self.get_index(0, start)
        } else {
            self.offset()
        };
        let size = Size::new(self.row_dim(), ncols);
        let st = self.strides();
        let bl = self.as_slice().len();
        proof {
            self.lemma_wf();
            let off = self.spec_offset() as int;
            let srows = self.spec_rows() as int;
            let scols = self.spec_cols() as int;
            let rs = self.spec_row_stride() as int;
            let cs = self.spec_col_stride() as int;
            let len = self.spec_buf().len() as int;
            let s0 = range.spec_start() as int;
            let n = range.spec_end() - range.spec_start();
            if start < cols && rows > 0 {
                lemma_subview_ok(off, srows, rs, scols, cs, len, 0, s0, srows, n as int);
            } else {
                assert(srows * (n as int) == 0) by (nonlinear_arith)
                    requires
                        n == 0 || srows == 0,
                        0 <= n,
                ;
                assert(layout_ok(self.spec_offset() as int, srows, rs, n as int, cs, len));
            }
        }
        let v = RefStorageMut::new(noff, bl, size, st);
        let sl = SliceBase::new(v);
        proof {
            let off = self.spec_offset() as int;
            let rs = self.spec_row_stride() as int;
            let cs = self.spec_col_stride() as int;
            let s0 = range.spec_start() as int;
            let n = range.spec_end() - range.spec_start();
            assert forall|r: int, c: int|
                0 <= r < self.spec_rows() && 0 <= c < n implies #[trigger] sl.spec_index(r, c)
                == self.spec_index(r, s0 + c) by {
                lemma_lin_rebase(off, rs, cs, 0, s0, r, c);
                assert(lin_index(off, 0, rs, s0, cs) == sl.spec_offset() as int);
            }
        }
        sl
    }
}

impl<T: Copy, X: Storage<T>> Sliceable<T> for X {

}

} // verus!
