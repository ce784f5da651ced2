//! The public-facing container value: an element type tag plus a storage. It
//! adds no behaviour of its own; one generic implementation per capability
//! delegates to the wrapped storage, so that every storage kind gains the
//! whole capability set from a single definition.
use crate::dims::Dim;
use crate::dims::Size;
use crate::storage::DynamicColStorage;
use crate::storage::DynamicRowStorage;
use crate::storage::InplaceMap;
use crate::storage::InplaceMapOrdered;
use crate::storage::Ownable;
use crate::storage::Storage;
use crate::storage::StorageConstructor;
use crate::storage::StorageMut;
use crate::storage::StorageSize;
use crate::storage::StorageView;
use crate::storage::Strided;
use crate::vec_storage_cm::VecStorageCM;
use crate::vec_storage_rm::VecStorageRM;
use crate::Error;
use core::marker::PhantomData;
use vstd::prelude::*;

verus! {

/// A container: an element type tag plus a storage instance, delegating the
/// whole capability set to the storage.
#[derive(Debug, PartialEq, Eq)]
pub struct Container<T, S> {
    pub storage: S,
    pub elem: PhantomData<T>,
}

impl<T, S> Container<T, S> {
    /// Wraps a storage.
    pub fn new(storage: S) -> (c: Self)
        ensures
            c.storage == storage,
    {
        Container { storage, elem: PhantomData }
    }

    /// Unwraps the storage.
    pub fn into_storage(self) -> (s: S)
        ensures
            s == self.storage,
    {
        self.storage
    }
}

impl<T, S: StorageSize> StorageSize for Container<T, S> {
    type Rows = S::Rows;

    type Cols = S::Cols;

    open spec fn spec_rows(&self) -> nat {
        self.storage.spec_rows()
    }

    open spec fn spec_cols(&self) -> nat {
        self.storage.spec_cols()
    }

    fn row_dim(&self) -> S::Rows {
        self.storage.row_dim()
    }

    fn col_dim(&self) -> S::Cols {
        self.storage.col_dim()
    }
}

impl<T, S: Strided> Strided for Container<T, S> {
    type RowStride = S::RowStride;

    type ColStride = S::ColStride;

    open spec fn spec_row_stride(&self) -> nat {
        self.storage.spec_row_stride()
    }

    open spec fn spec_col_stride(&self) -> nat {
        self.storage.spec_col_stride()
    }

    open spec fn spec_offset(&self) -> nat {
        self.storage.spec_offset()
    }

    fn row_stride_dim(&self) -> S::RowStride {
        self.storage.row_stride_dim()
    }

    fn col_stride_dim(&self) -> S::ColStride {
        self.storage.col_stride_dim()
    }

    fn offset(&self) -> usize {
        self.storage.offset()
    }
}

impl<T: Copy, S: Storage<T>> Storage<T> for Container<T, S> {
    open spec fn spec_buf(&self) -> Seq<T> {
        self.storage.spec_buf()
    }

    open spec fn wf(&self) -> bool {
        self.storage.wf()
    }

    proof fn lemma_wf(&self) {
        self.storage.lemma_wf()
    }

    fn read_index(&self, i: usize) -> T {
        self.storage.read_index(i)
    }

    fn as_slice(&self) -> &[T] {
        self.storage.as_slice()
    }
}

impl<T: Copy, S: StorageMut<T>> StorageMut<T> for Container<T, S> {
    fn set_index(&mut self, i: usize, v: T) {
        self.storage.set_index(i, v)
    }
}

impl<T: Copy, S: InplaceMap<T>> InplaceMap<T> for Container<T, S> {
    fn map_inplace<F: Fn(T) -> T>(&mut self, f: F) {
        self.storage.map_inplace(f)
    }
}

impl<T: Copy, S: InplaceMapOrdered<T>> InplaceMapOrdered<T> for Container<T, S> {
    fn map_inplace_ordered<F: Fn(T) -> T>(&mut self, f: F) {
        self.storage.map_inplace_ordered(f)
    }
}

impl<T: Copy + Default, S: DynamicColStorage<T>> DynamicColStorage<T> for Container<T, S> {
    fn set_cols(&mut self, count: usize) {
        self.storage.set_cols(count);
        proof {
            assert forall|r: int, c: int|
                0 <= r < old(self).spec_rows() && 0 <= c < old(self).spec_cols() && c
                    < count implies #[trigger] self.spec_at(r, c) == old(self).spec_at(r, c) by {
                assert(self.storage.spec_at(r, c) == old(self).storage.spec_at(r, c));
            }
            assert forall|r: int, c: int|
                0 <= r < old(self).spec_rows() && old(self).spec_cols() <= c
                    < count implies call_ensures(
                <T as Default>::default,
                (),
                #[trigger] self.spec_at(r, c),
            ) by {
                assert(call_ensures(<T as Default>::default, (), self.storage.spec_at(r, c)));
            }
        }
    }
}

impl<T: Copy + Default, S: DynamicRowStorage<T>> DynamicRowStorage<T> for Container<T, S> {
    fn set_rows(&mut self, count: usize) {
        self.storage.set_rows(count);
        proof {
            assert forall|r: int, c: int|
                0 <= r < old(self).spec_rows() && r < count && 0 <= c < old(
                    self,
                ).spec_cols() implies #[trigger] self.spec_at(r, c) == old(self).spec_at(r, c) by {
                assert(self.storage.spec_at(r, c) == old(self).storage.spec_at(r, c));
            }
            assert forall|r: int, c: int|
                old(self).spec_rows() <= r < count && 0 <= c < old(
                    self,
                ).spec_cols() implies call_ensures(
                <T as Default>::default,
                (),
                #[trigger] self.spec_at(r, c),
            ) by {
                assert(call_ensures(<T as Default>::default, (), self.storage.spec_at(r, c)));
            }
        }
    }
}

impl<T: Copy, S: StorageConstructor<T>> StorageConstructor<T> for Container<T, S> {
    fn from_value(s: Size<S::Rows, S::Cols>, value: T) -> Self {
        let c = Container::new(S::from_value(s, value));
        proof {
            assert forall|i: int, j: int|
                0 <= i < s.spec_rows() && 0 <= j < s.spec_cols() implies #[trigger] c.spec_at(i, j)
                == value by {
                assert(c.storage.spec_at(i, j) == value);
            }
        }
        c
    }
}

impl<T: Copy, S: Ownable<T>> Ownable<T> for Container<T, S> {
    type OwnedType = S::OwnedType;

    fn owned(self) -> Container<T, S::OwnedType> {
        self.storage.owned()
    }

    fn clone_owned(&self) -> Container<T, S::OwnedType> {
        self.storage.clone_owned()
    }
}

/// A container over an owned row-major storage.
pub type ContainerRM<T, R, C> = Container<T, VecStorageRM<T, R, C>>;

/// A container over an owned column-major storage.
pub type ContainerCM<T, R, C> = Container<T, VecStorageCM<T, R, C>>;

impl<T: Copy, R: Dim, C: Dim> Container<T, VecStorageRM<T, R, C>> {
    /// Creates a row-major container over `data`, which must hold exactly
    /// `rows * cols` elements, or fails with `Error::DimensionMismatch`.
    pub fn from_vec(rows: R, cols: C, data: Vec<T>) -> (res: Result<Self, Error>)
        ensures
            match res {
                Ok(c) => {
                    &&& rows.spec_value() * cols.spec_value() == data@.len()
                    &&& c.wf()
                    &&& c.spec_rows() == rows.spec_value()
                    &&& c.spec_cols() == cols.spec_value()
                    &&& c.spec_buf() == data@
                },
                Err(e) => e == Error::DimensionMismatch && rows.spec_value() * cols.spec_value()
                    != data@.len(),
            },
    {
        match VecStorageRM::new(rows, cols, data) {
            Ok(s) => Ok(Container::new(s)),
            Err(e) => Err(e),
        }
    }
}

impl<T: Copy, R: Dim, C: Dim> Container<T, VecStorageCM<T, R, C>> {
    /// Creates a column-major container over `data`, which must hold exactly
    /// `rows * cols` elements, or fails with `Error::DimensionMismatch`.
    pub fn from_vec(rows: R, cols: C, data: Vec<T>) -> (res: Result<Self, Error>)
        ensures
            match res {
                Ok(c) => {
                    &&& rows.spec_value() * cols.spec_value() == data@.len()
                    &&& c.wf()
                    &&& c.spec_rows() == rows.spec_value()
                    &&& c.spec_cols() == cols.spec_value()
                    &&& c.spec_buf() == data@
                },
                Err(e) => e == Error::DimensionMismatch && rows.spec_value() * cols.spec_value()
                    != data@.len(),
            },
    {
        match VecStorageCM::new(rows, cols, data) {
            Ok(s) => Ok(Container::new(s)),
            Err(e) => Err(e),
        }
    }
}

} // verus!
