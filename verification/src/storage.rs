//! The strided-storage contract: the capability set every storage variant
//! (owned or borrowed) implements. All access funnels through the single
//! index formula of `crate::layout`; a storage proves once, in `lemma_wf`,
//! that its layout is valid for its buffer, and every other operation rides
//! on that fact.
use crate::container::Container;
use crate::dims::Dim;
use crate::dims::Size;
use crate::dims::Strides;
use crate::layout::flat_pos;
use crate::layout::layout_ok;
use crate::layout::lemma_logical_index;
use crate::layout::lin_index;
use crate::layout::logical_of;
use crate::Error;
use vstd::prelude::*;

verus! {

/// The size capability: a storage has a row extent and a column extent.
pub trait StorageSize: Sized {
    /// The kind of the row extent.
    type Rows: Dim;

    /// The kind of the column extent.
    type Cols: Dim;

    /// The number of rows.
    spec fn spec_rows(&self) -> nat;

    /// The number of columns.
    spec fn spec_cols(&self) -> nat;

    /// Returns the row extent.
    fn row_dim(&self) -> (d: Self::Rows)
        ensures
            d.spec_value() == self.spec_rows(),
    ;

    /// Returns the column extent.
    fn col_dim(&self) -> (d: Self::Cols)
        ensures
            d.spec_value() == self.spec_cols(),
    ;

    /// Returns the number of rows.
    fn rows(&self) -> (r: usize)
        ensures
            r as nat == self.spec_rows(),
    {
        self.row_dim().value()
    }

    /// Returns the number of columns.
    fn cols(&self) -> (c: usize)
        ensures
            c as nat == self.spec_cols(),
    {
        self.col_dim().value()
    }

    /// Returns the size pair.
    fn size(&self) -> (s: Size<Self::Rows, Self::Cols>)
        ensures
            s.spec_rows() == self.spec_rows(),
            s.spec_cols() == self.spec_cols(),
    {
        Size::new(self.row_dim(), self.col_dim())
    }
}

/// The stride capability: a storage addresses its buffer through a base
/// offset and a stride per axis.
pub trait Strided: StorageSize {
    /// The kind of the row stride.
    type RowStride: Dim;

    /// The kind of the column stride.
    type ColStride: Dim;

    /// Elements to advance per step along rows.
    spec fn spec_row_stride(&self) -> nat;

    /// Elements to advance per step along columns.
    spec fn spec_col_stride(&self) -> nat;

    /// The offset of logical position `(0, 0)` in the backing buffer.
    spec fn spec_offset(&self) -> nat;

    /// Returns the row stride.
    fn row_stride_dim(&self) -> (d: Self::RowStride)
        ensures
            d.spec_value() == self.spec_row_stride(),
    ;

    /// Returns the column stride.
    fn col_stride_dim(&self) -> (d: Self::ColStride)
        ensures
            d.spec_value() == self.spec_col_stride(),
    ;

    /// Returns the base offset.
    fn offset(&self) -> (o: usize)
        ensures
            o as nat == self.spec_offset(),
    ;

    /// Returns the row stride as a count.
    fn row_stride(&self) -> (r: usize)
        ensures
            r as nat == self.spec_row_stride(),
    {
        self.row_stride_dim().value()
    }

    /// Returns the column stride as a count.
    fn col_stride(&self) -> (c: usize)
        ensures
            c as nat == self.spec_col_stride(),
    {
        self.col_stride_dim().value()
    }

    /// Returns the stride pair.
    fn strides(&self) -> (s: Strides<Self::RowStride, Self::ColStride>)
        ensures
            s.spec_row() == self.spec_row_stride(),
            s.spec_col() == self.spec_col_stride(),
    {
        Strides::new(self.row_stride_dim(), self.col_stride_dim())
    }
}

/// The index formula of a strided storage, defined once for every
/// implementor.
pub trait StridedIndex: Strided {
    /// The physical offset of logical position `(r, c)`: the single formula
    /// every access path funnels through.
    spec fn spec_index(&self, r: int, c: int) -> int;
}

impl<X: Strided> StridedIndex for X {
    open spec fn spec_index(&self, r: int, c: int) -> int {
        lin_index(
            self.spec_offset() as int,
            r,
            self.spec_row_stride() as int,
            c,
            self.spec_col_stride() as int,
        )
    }
}

/// The read capability: a storage can resolve every in-range logical position
/// to an element of its backing buffer.
pub trait Storage<T: Copy>: Strided {
    /// The contents of the backing buffer this storage reads.
    spec fn spec_buf(&self) -> Seq<T>;

    /// Well-formedness: the storage's layout is valid for its buffer.
    spec fn wf(&self) -> bool;

    /// A well-formed storage's layout keeps every in-range position inside
    /// the buffer and collision-free.
    proof fn lemma_wf(&self)
        requires
            self.wf(),
        ensures
            layout_ok(
                self.spec_offset() as int,
                self.spec_rows() as int,
                self.spec_row_stride() as int,
                self.spec_cols() as int,
                self.spec_col_stride() as int,
                self.spec_buf().len() as int,
            ),
    ;

    /// Returns the element at physical offset `i` of the backing buffer.
    fn read_index(&self, i: usize) -> (v: T)
        requires
            self.wf(),
            i < self.spec_buf().len(),
        ensures
            v == self.spec_buf()[i as int],
    ;

    /// Returns the backing buffer.
    fn as_slice(&self) -> (s: &[T])
        requires
            self.wf(),
        ensures
            s@ == self.spec_buf(),
    ;

    /// Returns the number of elements.
    fn len(&self) -> (l: usize)
        requires
            self.wf(),
        ensures
            l as nat == self.spec_rows() * self.spec_cols(),
    {
        proof {
            self.lemma_wf();
        }
        self.rows() * self.cols()
    }

    /// Returns the physical offset of logical position `(r, c)`.
    fn get_index(&self, r: usize, c: usize) -> (i: usize)
        requires
            self.wf(),
            (r as nat) < self.spec_rows(),
            (c as nat) < self.spec_cols(),
        ensures
            i as int == self.spec_index(r as int, c as int),
            i < self.spec_buf().len(),
    {
        proof {
            self.lemma_wf();
            assert(lin_index(
                self.spec_offset() as int,
                r as int,
                self.spec_row_stride() as int,
                c as int,
                self.spec_col_stride() as int,
            ) < self.spec_buf().len() as int);
        }
        let o = self.offset();
        let rs = self.row_stride();
        let cs = self.col_stride();
        o + r * rs + c * cs
    }

    /// Returns the element at logical position `(r, c)`, or
    /// `Error::IndexOutOfBounds` when the row or column is at or past the
    /// extent.
    fn get(&self, r: usize, c: usize) -> (res: Result<T, Error>)
        requires
            self.wf(),
        ensures
            match res {
                Ok(v) => (r as nat) < self.spec_rows() && (c as nat) < self.spec_cols() && v
                    == self.spec_buf()[self.spec_index(r as int, c as int)],
                Err(e) => e == Error::IndexOutOfBounds && ((r as nat) >= self.spec_rows() || (
                c as nat) >= self.spec_cols()),
            },
    {
        if r < self.rows() && c < self.cols() {
            let i = self.get_index(r, c);
            Ok(self.read_index(i))
        } else {
            Err(Error::IndexOutOfBounds)
        }
    }

    /// Returns the physical offset of the start of row `r`.
    fn row_index(&self, r: usize) -> (i: usize)
        requires
            self.wf(),
            (r as nat) < self.spec_rows(),
            self.spec_cols() > 0,
        ensures
            i as int == self.spec_index(r as int, 0),
            i < self.spec_buf().len(),
    {
        self.get_index(r, 0)
    }

    /// Returns the physical offset of the start of column `c`.
    fn col_index(&self, c: usize) -> (i: usize)
        requires
            self.wf(),
            (c as nat) < self.spec_cols(),
            self.spec_rows() > 0,
        ensures
            i as int == self.spec_index(0, c as int),
            i < self.spec_buf().len(),
    {
        self.get_index(0, c)
    }

    /// Wraps this storage in a container.
    fn into_container(self) -> (c: Container<T, Self>)
        ensures
            c.storage == self,
    {
        Container::new(self)
    }
}

/// The logical reading of a storage, defined once for every implementor.
pub trait StorageView<T: Copy>: Storage<T> {
    /// The element at logical position `(r, c)`.
    spec fn spec_at(&self, r: int, c: int) -> T;

    /// The elements of this storage in row-major logical order, whatever the
    /// physical layout.
    spec fn logical(&self) -> Seq<T>;
}

impl<T: Copy, X: Storage<T>> StorageView<T> for X {
    open spec fn spec_at(&self, r: int, c: int) -> T {
        self.spec_buf()[self.spec_index(r, c)]
    }

    open spec fn logical(&self) -> Seq<T> {
        logical_of(
            self.spec_buf(),
            self.spec_offset() as int,
            self.spec_rows() as int,
            self.spec_row_stride() as int,
            self.spec_cols() as int,
            self.spec_col_stride() as int,
        )
    }
}

/// The write capability: an exclusively held storage can overwrite single
/// elements of its buffer, leaving its layout untouched.
pub trait StorageMut<T: Copy>: Storage<T> {
    /// Overwrites the element at physical offset `i`.
    fn set_index(&mut self, i: usize, v: T)
        requires
            old(self).wf(),
            i < old(self).spec_buf().len(),
        ensures
            final(self).wf(),
            final(self).spec_buf() == old(self).spec_buf().update(i as int, v),
            final(self).spec_rows() == old(self).spec_rows(),
            final(self).spec_cols() == old(self).spec_cols(),
            final(self).spec_row_stride() == old(self).spec_row_stride(),
            final(self).spec_col_stride() == old(self).spec_col_stride(),
            final(self).spec_offset() == old(self).spec_offset(),
    ;

    /// Overwrites the element at logical position `(r, c)`, or returns
    /// `Error::IndexOutOfBounds` when the row or column is at or past the
    /// extent, leaving the storage unchanged.
    fn set(&mut self, r: usize, c: usize, v: T) -> (res: Result<(), Error>)
        requires
            old(self).wf(),
        ensures
            final(self).wf(),
            final(self).spec_rows() == old(self).spec_rows(),
            final(self).spec_cols() == old(self).spec_cols(),
            final(self).spec_row_stride() == old(self).spec_row_stride(),
            final(self).spec_col_stride() == old(self).spec_col_stride(),
            final(self).spec_offset() == old(self).spec_offset(),
            match res {
                Ok(()) => (r as nat) < old(self).spec_rows() && (c as nat) < old(self).spec_cols()
                    && final(self).spec_buf() == old(self).spec_buf().update(
                    old(self).spec_index(r as int, c as int),
                    v,
                ),
                Err(e) => e == Error::IndexOutOfBounds && ((r as nat) >= old(self).spec_rows() || (
                c as nat) >= old(self).spec_cols()) && final(self).spec_buf() == old(
                    self,
                ).spec_buf(),
            },
    {
        if r < self.rows() && c < self.cols() {
            let i = self.get_index(r, c);
            self.set_index(i, v);
            Ok(())
        } else {
            Err(Error::IndexOutOfBounds)
        }
    }
}

/// In-place rewriting of every element with a function of the old element,
/// walking the backing buffer in physical order.
pub trait InplaceMap<T: Copy>: StorageMut<T> {
    /// Applies `f` to every element in place.
    fn map_inplace<F: Fn(T) -> T>(&mut self, f: F)
        requires
            old(self).wf(),
            forall|x: T| f.requires((x,)),
        ensures
            final(self).wf(),
            final(self).spec_rows() == old(self).spec_rows(),
            final(self).spec_cols() == old(self).spec_cols(),
            final(self).spec_row_stride() == old(self).spec_row_stride(),
            final(self).spec_col_stride() == old(self).spec_col_stride(),
            final(self).spec_offset() == old(self).spec_offset(),
            final(self).spec_buf().len() == old(self).spec_buf().len(),
            forall|i: int|
                0 <= i < old(self).spec_buf().len() ==> f.ensures(
                    (old(self).spec_buf()[i],),
                    #[trigger] final(self).spec_buf()[i],
                ),
    ;
}

/// In-place rewriting of every element, walking positions in row-major
/// logical order. With a pure function the traversal order is unobservable in
/// the result, so the contract coincides with `InplaceMap`.
pub trait InplaceMapOrdered<T: Copy>: StorageMut<T> {
    /// Applies `f` to every element in place, in row-major logical order.
    fn map_inplace_ordered<F: Fn(T) -> T>(&mut self, f: F)
        requires
            old(self).wf(),
            forall|x: T| f.requires((x,)),
        ensures
            final(self).wf(),
            final(self).spec_rows() == old(self).spec_rows(),
            final(self).spec_cols() == old(self).spec_cols(),
            final(self).spec_row_stride() == old(self).spec_row_stride(),
            final(self).spec_col_stride() == old(self).spec_col_stride(),
            final(self).spec_offset() == old(self).spec_offset(),
            final(self).spec_buf().len() == old(self).spec_buf().len(),
            forall|i: int|
                0 <= i < old(self).spec_buf().len() ==> f.ensures(
                    (old(self).spec_buf()[i],),
                    #[trigger] final(self).spec_buf()[i],
                ),
    ;
}

/// The capability of a storage whose column count may change at run time.
/// Elements at positions that exist before and after keep their values; new
/// positions hold the element type's default value.
pub trait DynamicColStorage<T: Copy + Default>: StorageMut<T> {
    /// Sets the number of columns to `count`.
    fn set_cols(&mut self, count: usize)
        requires
            old(self).wf(),
            old(self).spec_rows() * count <= usize::MAX,
        ensures
            final(self).wf(),
            final(self).spec_rows() == old(self).spec_rows(),
            final(self).spec_cols() == count as nat,
            forall|r: int, c: int|
                0 <= r < old(self).spec_rows() && 0 <= c < old(self).spec_cols() && c < count
                    ==> #[trigger] final(self).spec_at(r, c) == old(self).spec_at(r, c),
            forall|r: int, c: int|
                0 <= r < old(self).spec_rows() && old(self).spec_cols() <= c < count
                    ==> call_ensures(
                    <T as Default>::default,
                    (),
                    #[trigger] final(self).spec_at(r, c),
                ),
    ;
}

/// The capability of a storage whose row count may change at run time.
/// Elements at positions that exist before and after keep their values; new
/// positions hold the element type's default value.
pub trait DynamicRowStorage<T: Copy + Default>: StorageMut<T> {
    /// Sets the number of rows to `count`.
    fn set_rows(&mut self, count: usize)
        requires
            old(self).wf(),
            count * old(self).spec_cols() <= usize::MAX,
        ensures
            final(self).wf(),
            final(self).spec_rows() == count as nat,
            final(self).spec_cols() == old(self).spec_cols(),
            forall|r: int, c: int|
                0 <= r < old(self).spec_rows() && r < count && 0 <= c < old(self).spec_cols()
                    ==> #[trigger] final(self).spec_at(r, c) == old(self).spec_at(r, c),
            forall|r: int, c: int|
                old(self).spec_rows() <= r < count && 0 <= c < old(self).spec_cols()
                    ==> call_ensures(
                    <T as Default>::default,
                    (),
                    #[trigger] final(self).spec_at(r, c),
                ),
    ;
}

/// Construction of a storage filled with one value.
pub trait StorageConstructor<T: Copy>: Storage<T> {
    /// Returns a storage of size `s` whose every element is `value`.
    fn from_value(s: Size<Self::Rows, Self::Cols>, value: T) -> (r: Self)
        requires
            s.spec_len() <= usize::MAX,
        ensures
            r.wf(),
            r.spec_rows() == s.spec_rows(),
            r.spec_cols() == s.spec_cols(),
            forall|i: int, j: int|
                0 <= i < s.spec_rows() && 0 <= j < s.spec_cols() ==> #[trigger] r.spec_at(i, j)
                    == value,
    ;
}

/// Returns the elements of a storage in row-major logical order, whatever its
/// physical layout.
pub fn logical_vec<T: Copy, S: Storage<T>>(s: &S) -> (v: Vec<T>)
    requires
        s.wf(),
    ensures
        v@ == s.logical(),
{
    let rows = s.rows();
    let cols = s.cols();
    proof {
        s.lemma_wf();
    }
    let mut v: Vec<T> = Vec::new();
    let mut r: usize = 0;
    while r < rows
        invariant
            r <= rows,
            rows as nat == s.spec_rows(),
            cols as nat == s.spec_cols(),
            s.wf(),
            (rows as int) * (cols as int) <= usize::MAX,
            v@.len() == r * cols,
            forall|a: int, b: int|
                0 <= a < r && 0 <= b < cols ==> v@[#[trigger] flat_pos(a, cols as int, b)]
                    == s.spec_at(a, b),
        decreases rows - r,
    {
        proof {
            assert(r * cols + cols <= rows * cols) by (nonlinear_arith)
                requires
                    0 <= r < rows,
                    0 <= cols,
            ;
        }
        let mut c: usize = 0;
        while c < cols
            invariant
                r < rows,
                c <= cols,
                rows as nat == s.spec_rows(),
                cols as nat == s.spec_cols(),
                s.wf(),
                r * cols + cols <= rows * cols <= usize::MAX,
                v@.len() == r * cols + c,
                forall|a: int, b: int|
                    0 <= a < r && 0 <= b < cols ==> v@[#[trigger] flat_pos(a, cols as int, b)]
                        == s.spec_at(a, b),
                forall|b: int|
                    0 <= b < c ==> v@[#[trigger] flat_pos(r as int, cols as int, b)] == s.spec_at(
                        r as int,
                        b,
                    ),
            decreases cols - c,
        {
            let i = s.get_index(r, c);
            let x = s.read_index(i);
            v.push(x);
            c += 1;
            proof {
                assert forall|a: int, b: int| 0 <= a < r && 0 <= b < cols implies v@[#[trigger] flat_pos(
                    a,
                    cols as int,
                    b,
                )] == s.spec_at(a, b) by {
                    assert(0 <= a * cols + b < r * cols) by (nonlinear_arith)
                        requires
                            0 <= a < r,
                            0 <= b < cols,
                    ;
                }
            }
        }
        proof {
            assert((r + 1) * cols == r * cols + cols) by (nonlinear_arith);
        }
        r += 1;
    }
    proof {
        let rr = rows as int;
        let cc = cols as int;
        if rr * cc > 0 {
            assert(cc > 0) by (nonlinear_arith)
                requires
                    rr * cc > 0,
                    0 <= cc,
            ;
            assert forall|k: int| 0 <= k < rr * cc implies v@[k] == s.logical()[k] by {
                let a = k / cc;
                let b = k % cc;
                vstd::arithmetic::div_mod::lemma_fundamental_div_mod(k, cc);
                assert(0 <= a < rr && 0 <= b < cc) by (nonlinear_arith)
                    requires
                        0 <= k < rr * cc,
                        0 < cc,
                        a == k / cc,
                        b == k % cc,
                ;
                assert(a * cc + b == k) by (nonlinear_arith)
                    requires
                        k == cc * a + b,
                ;
                assert(flat_pos(a, cc, b) == k);
                lemma_logical_index(
                    s.spec_buf(),
                    s.spec_offset() as int,
                    rr,
                    s.spec_row_stride() as int,
                    cc,
                    s.spec_col_stride() as int,
                    a,
                    b,
                );
            }
        }
        assert(v@ =~= s.logical());
    }
    v
}

/// Conversion of any storage into one that owns its data. The returned
/// container's logical element order and size are identical to the source;
/// the physical layout may differ when the source was not canonical.
pub trait Ownable<T: Copy>: Storage<T> {
    /// The owned kind this storage converts into.
    type OwnedType: StorageMut<T>;

    /// Converts into a container that owns its data, consuming this storage;
    /// an already owned storage passes through unchanged.
    fn owned(self) -> (c: Container<T, Self::OwnedType>)
        requires
            self.wf(),
        ensures
            c.wf(),
            c.spec_rows() == self.spec_rows(),
            c.spec_cols() == self.spec_cols(),
            c.logical() == self.logical(),
    ;

    /// Clones the data into a container that owns it.
    fn clone_owned(&self) -> (c: Container<T, Self::OwnedType>)
        requires
            self.wf(),
        ensures
            c.wf(),
            c.spec_rows() == self.spec_rows(),
            c.spec_cols() == self.spec_cols(),
            c.logical() == self.logical(),
    ;
}

} // verus!
