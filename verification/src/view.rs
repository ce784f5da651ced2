//! Zero-copy views. A view wraps only a base offset, a size and a stride
//! pair; it owns no buffer. The shared view also carries a reference to the
//! buffer it reads, so it implements the full read capability set; the
//! exclusive view is a bare descriptor whose accessors take the target
//! storage, so that two disjoint descriptors can never mutate the same
//! element through overlapping regions unchecked.
use crate::container::Container;
use crate::dims::Dim;
use crate::dims::Size;
use crate::dims::Strides;
use crate::layout::layout_ok;
use crate::layout::lemma_logical_canonical_rm;
use crate::storage::logical_vec;
use crate::storage::Ownable;
use crate::storage::Storage;
use crate::storage::StorageMut;
use crate::storage::StorageSize;
use crate::storage::StorageView;
use crate::storage::Strided;
use crate::storage::StridedIndex;
use crate::vec_storage_rm::VecStorageRM;
use crate::Error;
use core::marker::PhantomData;
use vstd::prelude::*;

verus! {

/// A shared view: a base offset, size and strides over a borrowed buffer.
/// Bounds are validated when the view is constructed, not on every access.
#[derive(Clone, Copy, Debug)]
pub struct RefStorage<'a, T, R: Dim, RS: Dim, C: Dim, CS: Dim> {
    pub buf: &'a [T],
    pub off: usize,
    pub size: Size<R, C>,
    pub strides: Strides<RS, CS>,
}

impl<'a, T: Copy, R: Dim, RS: Dim, C: Dim, CS: Dim> RefStorage<'a, T, R, RS, C, CS> {
    /// Wraps a buffer region. The caller proves, once, that the layout is
    /// valid for the buffer; every later access rides on that fact.
    pub fn new(buf: &'a [T], off: usize, size: Size<R, C>, strides: Strides<RS, CS>) -> (v: Self)
        requires
            layout_ok(
                off as int,
                size.spec_rows() as int,
                strides.spec_row() as int,
                size.spec_cols() as int,
                strides.spec_col() as int,
                buf@.len() as int,
            ),
        ensures
            v.wf(),
            v.buf == buf,
            v.spec_offset() == off as nat,
            v.spec_rows() == size.spec_rows(),
            v.spec_cols() == size.spec_cols(),
            v.spec_row_stride() == strides.spec_row(),
            v.spec_col_stride() == strides.spec_col(),
    {
        RefStorage { buf, off, size, strides }
    }
}

impl<'a, T, R: Dim, RS: Dim, C: Dim, CS: Dim> StorageSize for RefStorage<'a, T, R, RS, C, CS> {
    type Rows = R;

    type Cols = C;

    open spec fn spec_rows(&self) -> nat {
        self.size.spec_rows()
    }

    open spec fn spec_cols(&self) -> nat {
        self.size.spec_cols()
    }

    fn row_dim(&self) -> R {
        self.size.row_dim()
    }

    fn col_dim(&self) -> C {
        self.size.col_dim()
    }
}

impl<'a, T, R: Dim, RS: Dim, C: Dim, CS: Dim> Strided for RefStorage<'a, T, R, RS, C, CS> {
    type RowStride = RS;

    type ColStride = CS;

    open spec fn spec_row_stride(&self) -> nat {
        self.strides.spec_row()
    }

    open spec fn spec_col_stride(&self) -> nat {
        self.strides.spec_col()
    }

    open spec fn spec_offset(&self) -> nat {
        self.off as nat
    }

    fn row_stride_dim(&self) -> RS {
        self.strides.row
    }

    fn col_stride_dim(&self) -> CS {
        self.strides.col
    }

    fn offset(&self) -> usize {
        self.off
    }
}

impl<'a, T: Copy, R: Dim, RS: Dim, C: Dim, CS: Dim> Storage<T> for RefStorage<
    'a,
    T,
    R,
    RS,
    C,
    CS,
> {
    open spec fn spec_buf(&self) -> Seq<T> {
        self.buf@
    }

    open spec fn wf(&self) -> bool {
        layout_ok(
            self.off as int,
            self.size.spec_rows() as int,
            self.strides.spec_row() as int,
            self.size.spec_cols() as int,
            self.strides.spec_col() as int,
            self.buf@.len() as int,
        )
    }

    proof fn lemma_wf(&self) {
        assert(layout_ok(
            self.spec_offset() as int,
            self.spec_rows() as int,
            self.spec_row_stride() as int,
            self.spec_cols() as int,
            self.spec_col_stride() as int,
            self.spec_buf().len() as int,
        ));
    }

    fn read_index(&self, i: usize) -> T {
        self.buf[i]
    }

    fn as_slice(&self) -> &[T] {
        self.buf
    }
}

impl<'a, T: Copy, R: Dim, RS: Dim, C: Dim, CS: Dim> Ownable<T> for RefStorage<
    'a,
    T,
    R,
    RS,
    C,
    CS,
> {
    type OwnedType = VecStorageRM<T, R, C>;

    fn owned(self) -> Container<T, VecStorageRM<T, R, C>> {
        self.clone_owned()
    }

    fn clone_owned(&self) -> Container<T, VecStorageRM<T, R, C>> {
        let data = logical_vec(self);
        proof {
            self.lemma_wf();
        }
        let o = VecStorageRM { data, size: Size::new(self.size.row_dim(), self.size.col_dim()) };
        proof {
            lemma_logical_canonical_rm(
                o.data@,
                self.spec_rows() as int,
                self.spec_cols() as int,
            );
        }
        Container::new(o)
    }
}

/// An exclusive view: a bare descriptor of a region of some storage's buffer,
/// validated against that buffer's length at construction. Reading and
/// writing take the target storage, so the borrow rules keep mutation
/// exclusive while two descriptors over disjoint regions can still be held at
/// once.
#[derive(Debug)]
pub struct RefStorageMut<T, R: Dim, RS: Dim, C: Dim, CS: Dim> {
    pub off: usize,
    pub buf_len: usize,
    pub size: Size<R, C>,
    pub strides: Strides<RS, CS>,
    pub elem: PhantomData<T>,
}

impl<T, R: Dim, RS: Dim, C: Dim, CS: Dim> StorageSize for RefStorageMut<T, R, RS, C, CS> {
    type Rows = R;

    type Cols = C;

    open spec fn spec_rows(&self) -> nat {
        self.size.spec_rows()
    }

    open spec fn spec_cols(&self) -> nat {
        self.size.spec_cols()
    }

    fn row_dim(&self) -> R {
        self.size.row_dim()
    }

    fn col_dim(&self) -> C {
        self.size.col_dim()
    }
}

impl<T, R: Dim, RS: Dim, C: Dim, CS: Dim> Strided for RefStorageMut<T, R, RS, C, CS> {
    type RowStride = RS;

    type ColStride = CS;

    open spec fn spec_row_stride(&self) -> nat {
        self.strides.spec_row()
    }

    open spec fn spec_col_stride(&self) -> nat {
        self.strides.spec_col()
    }

    open spec fn spec_offset(&self) -> nat {
        self.off as nat
    }

    fn row_stride_dim(&self) -> RS {
        self.strides.row
    }

    fn col_stride_dim(&self) -> CS {
        self.strides.col
    }

    fn offset(&self) -> usize {
        self.off
    }
}

impl<T: Copy, R: Dim, RS: Dim, C: Dim, CS: Dim> RefStorageMut<T, R, RS, C, CS> {
    /// Well-formedness: the descriptor's layout is valid for a buffer of the
    /// recorded length.
    pub open spec fn wf(&self) -> bool {
        layout_ok(
            self.off as int,
            self.size.spec_rows() as int,
            self.strides.spec_row() as int,
            self.size.spec_cols() as int,
            self.strides.spec_col() as int,
            self.buf_len as int,
        )
    }

    /// Describes a region of a buffer of length `buf_len`. The caller proves,
    /// once, that the layout is valid for that length.
    pub fn new(off: usize, buf_len: usize, size: Size<R, C>, strides: Strides<RS, CS>) -> (v: Self)
        requires
            layout_ok(
                off as int,
                size.spec_rows() as int,
                strides.spec_row() as int,
                size.spec_cols() as int,
                strides.spec_col() as int,
                buf_len as int,
            ),
        ensures
            v.wf(),
            v.off == off,
            v.buf_len == buf_len,
            v.size == size,
            v.strides == strides,
    {
        RefStorageMut { off, buf_len, size, strides, elem: PhantomData }
    }

    /// Returns the element of `src` at logical position `(r, c)` of this
    /// region, or `Error::IndexOutOfBounds` when the row or column is at or
    /// past the extent.
    pub fn get_in<S: Storage<T>>(&self, src: &S, r: usize, c: usize) -> (res: Result<T, Error>)
        requires
            self.wf(),
            src.wf(),
            self.buf_len == src.spec_buf().len(),
        ensures
            match res {
                Ok(v) => (r as nat) < self.size.spec_rows() && (c as nat) < self.size.spec_cols()
                    && v == src.spec_buf()[self.spec_index(r as int, c as int)],
                Err(e) => e == Error::IndexOutOfBounds && ((r as nat) >= self.size.spec_rows() || (
                c as nat) >= self.size.spec_cols()),
            },
    {
        if r < self.size.rows() && c < self.size.cols() {
            let i = self.index_of(r, c);
            Ok(src.read_index(i))
        } else {
            Err(Error::IndexOutOfBounds)
        }
    }

    /// Overwrites the element of `target` at logical position `(r, c)` of
    /// this region, or returns `Error::IndexOutOfBounds` when the row or
    /// column is at or past the extent, leaving the target unchanged.
    pub fn set_in<S: StorageMut<T>>(&self, target: &mut S, r: usize, c: usize, v: T) -> (res:
        Result<(), Error>)
        requires
            self.wf(),
            old(target).wf(),
            self.buf_len == old(target).spec_buf().len(),
        ensures
            final(target).wf(),
            final(target).spec_rows() == old(target).spec_rows(),
            final(target).spec_cols() == old(target).spec_cols(),
            final(target).spec_row_stride() == old(target).spec_row_stride(),
            final(target).spec_col_stride() == old(target).spec_col_stride(),
            final(target).spec_offset() == old(target).spec_offset(),
            match res {
                Ok(()) => (r as nat) < self.size.spec_rows() && (c as nat)
                    < self.size.spec_cols() && final(target).spec_buf() == old(
                    target,
                ).spec_buf().update(self.spec_index(r as int, c as int), v),
                Err(e) => e == Error::IndexOutOfBounds && ((r as nat) >= self.size.spec_rows() || (
                c as nat) >= self.size.spec_cols()) && final(target).spec_buf() == old(
                    target,
                ).spec_buf(),
            },
    {
        if r < self.size.rows() && c < self.size.cols() {
            let i = self.index_of(r, c);
            target.set_index(i, v);
            Ok(())
        } else {
            Err(Error::IndexOutOfBounds)
        }
    }

    /// Returns the physical offset of logical position `(r, c)`.
    pub fn index_of(&self, r: usize, c: usize) -> (i: usize)
        requires
            self.wf(),
            (r as nat) < self.size.spec_rows(),
            (c as nat) < self.size.spec_cols(),
        ensures
            i as int == self.spec_index(r as int, c as int),
            i < self.buf_len,
    {
        proof {
            assert(crate::layout::lin_index(
                self.off as int,
                r as int,
                self.strides.spec_row() as int,
                c as int,
                self.strides.spec_col() as int,
            ) < self.buf_len as int);
        }
        self.off + r * self.strides.row_stride() + c * self.strides.col_stride()
    }
}

} // verus!
