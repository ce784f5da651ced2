//! The dimension model: an axis extent is either fixed at build time (the
//! zero-sized types `U0` .. `U4`) or chosen at run time (`Dynamic`, which
//! carries its value). Generic code is written once against the `Dim`
//! capability set; fixed extents store no run-time field at all.
use vstd::prelude::*;

verus! {

/// An axis extent. Implementors resolve to a single `usize` value; two
/// extents of the same kind compare equal exactly when their values do.
pub trait Dim: Sized + Copy {
    /// The resolved extent.
    spec fn spec_value(&self) -> nat;

    /// Returns the resolved extent.
    fn value(&self) -> (v: usize)
        ensures
            v as nat == self.spec_value(),
    ;
}

/// A fixed extent of 0.
#[derive(Clone, Copy, Debug, PartialEq, Eq, Structural)]
pub struct U0;

/// A fixed extent of 1.
#[derive(Clone, Copy, Debug, PartialEq, Eq, Structural)]
pub struct U1;

/// A fixed extent of 2.
#[derive(Clone, Copy, Debug, PartialEq, Eq, Structural)]
pub struct U2;

/// A fixed extent of 3.
#[derive(Clone, Copy, Debug, PartialEq, Eq, Structural)]
pub struct U3;

/// A fixed extent of 4.
#[derive(Clone, Copy, Debug, PartialEq, Eq, Structural)]
pub struct U4;

/// A run-time extent.
#[derive(Clone, Copy, Debug, PartialEq, Eq, Structural)]
pub struct Dynamic {
    pub value: usize,
}

impl Dynamic {
    /// Wraps a run-time extent.
    pub fn new(value: usize) -> (d: Self)
        ensures
            d.spec_value() == value as nat,
    {
        Dynamic { value }
    }
}

impl Dim for U0 {
    open spec fn spec_value(&self) -> nat {
        0
    }

    fn value(&self) -> usize {
        0
    }
}

impl Dim for U1 {
    open spec fn spec_value(&self) -> nat {
        1
    }

    fn value(&self) -> usize {
        1
    }
}

impl Dim for U2 {
    open spec fn spec_value(&self) -> nat {
        2
    }

    fn value(&self) -> usize {
        2
    }
}

impl Dim for U3 {
    open spec fn spec_value(&self) -> nat {
        3
    }

    fn value(&self) -> usize {
        3
    }
}

impl Dim for U4 {
    open spec fn spec_value(&self) -> nat {
        4
    }

    fn value(&self) -> usize {
        4
    }
}

impl Dim for Dynamic {
    open spec fn spec_value(&self) -> nat {
        self.value as nat
    }

    fn value(&self) -> usize {
        self.value
    }
}

/// Subtraction of extents, used when splitting a region: the difference of two
/// fixed extents is again the exact fixed remainder, every other combination
/// is a run-time extent.
pub trait DimSub<P: Dim>: Dim {
    /// The kind of the remainder.
    type Output: Dim;

    /// Returns the remainder `self - other`.
    fn sub_dim(self, other: P) -> (r: Self::Output)
        requires
            other.spec_value() <= self.spec_value(),
        ensures
            r.spec_value() == self.spec_value() - other.spec_value(),
    ;
}

impl<D: Dim> DimSub<Dynamic> for D {
    type Output = Dynamic;

    fn sub_dim(self, other: Dynamic) -> Dynamic {
        Dynamic { value: self.value() - other.value() }
    }
}

impl DimSub<U0> for Dynamic {
    type Output = Dynamic;

    fn sub_dim(self, _other: U0) -> Dynamic {
        self
    }
}

impl DimSub<U1> for Dynamic {
    type Output = Dynamic;

    fn sub_dim(self, other: U1) -> Dynamic {
        Dynamic { value: self.value - other.value() }
    }
}

impl DimSub<U2> for Dynamic {
    type Output = Dynamic;

    fn sub_dim(self, other: U2) -> Dynamic {
        Dynamic { value: self.value - other.value() }
    }
}

impl DimSub<U3> for Dynamic {
    type Output = Dynamic;

    fn sub_dim(self, other: U3) -> Dynamic {
        Dynamic { value: self.value - other.value() }
    }
}

impl DimSub<U4> for Dynamic {
    type Output = Dynamic;

    fn sub_dim(self, other: U4) -> Dynamic {
        Dynamic { value: self.value - other.value() }
    }
}

impl DimSub<U1> for U1 {
    type Output = U0;

    fn sub_dim(self, _other: U1) -> U0 {
        U0
    }
}

impl DimSub<U1> for U2 {
    type Output = U1;

    fn sub_dim(self, _other: U1) -> U1 {
        U1
    }
}

impl DimSub<U2> for U2 {
    type Output = U0;

    fn sub_dim(self, _other: U2) -> U0 {
        U0
    }
}

impl DimSub<U1> for U3 {
    type Output = U2;

    fn sub_dim(self, _other: U1) -> U2 {
        U2
    }
}

impl DimSub<U2> for U3 {
    type Output = U1;

    fn sub_dim(self, _other: U2) -> U1 {
        U1
    }
}

impl DimSub<U3> for U3 {
    type Output = U0;

    fn sub_dim(self, _other: U3) -> U0 {
        U0
    }
}

impl DimSub<U1> for U4 {
    type Output = U3;

    fn sub_dim(self, _other: U1) -> U3 {
        U3
    }
}

impl DimSub<U2> for U4 {
    type Output = U2;

    fn sub_dim(self, _other: U2) -> U2 {
        U2
    }
}

impl DimSub<U3> for U4 {
    type Output = U1;

    fn sub_dim(self, _other: U3) -> U1 {
        U1
    }
}

impl DimSub<U4> for U4 {
    type Output = U0;

    fn sub_dim(self, _other: U4) -> U0 {
        U0
    }
}

/// A pair of extents: the number of rows and of columns of a region.
#[derive(Clone, Copy, Debug, PartialEq, Eq)]
pub struct Size<R: Dim, C: Dim> {
    pub rows: R,
    pub cols: C,
}

impl<R: Dim, C: Dim> Size<R, C> {
    /// The number of rows.
    pub open spec fn spec_rows(&self) -> nat {
        self.rows.spec_value()
    }

    /// The number of columns.
    pub open spec fn spec_cols(&self) -> nat {
        self.cols.spec_value()
    }

    /// The number of elements of the region.
    pub open spec fn spec_len(&self) -> nat {
        self.spec_rows() * self.spec_cols()
    }

    /// Pairs two extents.
    pub fn new(rows: R, cols: C) -> (s: Self)
        ensures
            s.rows == rows,
            s.cols == cols,
    {
        Size { rows, cols }
    }

    /// Returns the row extent.
    pub fn row_dim(&self) -> (d: R)
        ensures
            d == self.rows,
    {
        self.rows
    }

    /// Returns the column extent.
    pub fn col_dim(&self) -> (d: C)
        ensures
            d == self.cols,
    {
        self.cols
    }

    /// Returns the number of rows.
    pub fn rows(&self) -> (r: usize)
        ensures
            r as nat == self.spec_rows(),
    {
        self.rows.value()
    }

    /// Returns the number of columns.
    pub fn cols(&self) -> (c: usize)
        ensures
            c as nat == self.spec_cols(),
    {
        self.cols.value()
    }

    /// Returns the number of elements, or `None` when it does not fit the
    /// machine's word.
    pub fn checked_len(&self) -> (l: Option<usize>)
        ensures
            match l {
                Some(n) => n as nat == self.spec_len(),
                None => self.spec_len() > usize::MAX,
            },
    {
        self.rows.value().checked_mul(self.cols.value())
    }

    /// Returns the number of elements.
    pub fn len(&self) -> (l: usize)
        requires
            self.spec_len() <= usize::MAX,
        ensures
            l as nat == self.spec_len(),
    {
        self.rows.value() * self.cols.value()
    }
}

/// A pair of strides: the number of elements to advance in the backing buffer
/// to move one step along rows, and one step along columns.
#[derive(Clone, Copy, Debug, PartialEq, Eq)]
pub struct Strides<RS: Dim, CS: Dim> {
    pub row: RS,
    pub col: CS,
}

impl<RS: Dim, CS: Dim> Strides<RS, CS> {
    /// The row stride.
    pub open spec fn spec_row(&self) -> nat {
        self.row.spec_value()
    }

    /// The column stride.
    pub open spec fn spec_col(&self) -> nat {
        self.col.spec_value()
    }

    /// Pairs two strides.
    pub fn new(row: RS, col: CS) -> (s: Self)
        ensures
            s.row == row,
            s.col == col,
    {
        Strides { row, col }
    }

    /// Returns the row stride.
    pub fn row_stride(&self) -> (r: usize)
        ensures
            r as nat == self.spec_row(),
    {
        self.row.value()
    }

    /// Returns the column stride.
    pub fn col_stride(&self) -> (c: usize)
        ensures
            c as nat == self.spec_col(),
    {
        self.col.value()
    }
}

} // verus!
