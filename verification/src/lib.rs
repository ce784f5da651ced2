//! Dense rectangular containers ("matrices") with row-major and column-major
//! physical layouts, dimensions that are fixed at build time or chosen at run
//! time, zero-copy views over sub-regions, and splittable iterators.
//!
//! All element access funnels through one strided index formula,
//! `offset + r * row_stride + c * col_stride`, whose bounds are validated when
//! a storage or view is constructed rather than on every access.
use vstd::prelude::*;

mod buffer;
pub mod container;
pub mod dims;
pub mod element;
pub mod iterator;
pub mod laws;
pub mod layout;
pub mod ops;
pub mod slice;
pub mod storage;
pub mod vec_storage_cm;
pub mod vec_storage_rm;
pub mod view;

pub use container::Container;
pub use container::ContainerCM;
pub use container::ContainerRM;
pub use dims::Dim;
pub use dims::DimSub;
pub use dims::Dynamic;
pub use dims::Size;
pub use dims::Strides;
pub use dims::U0;
pub use dims::U1;
pub use dims::U2;
pub use dims::U3;
pub use dims::U4;
pub use element::Element;
pub use element::ElementType;
pub use element::ScalarType;
pub use iterator::AxisIterRaw;
pub use iterator::AxisIterable;
pub use iterator::ColSliceIter;
pub use iterator::ColSliceIterMut;
pub use iterator::FullIter;
pub use iterator::FullIterCore;
pub use iterator::FullIterMut;
pub use iterator::RowSliceIter;
pub use iterator::RowSliceIterMut;
pub use iterator::SplittableIterator;
pub use ops::clamp;
pub use ops::Clamp;
pub use ops::ClampAssign;
pub use slice::Slice;
pub use slice::SliceBase;
pub use slice::SliceMut;
pub use slice::SliceRange;
pub use slice::Sliceable;
pub use storage::logical_vec;
pub use storage::DynamicColStorage;
pub use storage::DynamicRowStorage;
pub use storage::InplaceMap;
pub use storage::InplaceMapOrdered;
pub use storage::Ownable;
pub use storage::Storage;
pub use storage::StorageConstructor;
pub use storage::StorageMut;
pub use storage::StorageSize;
pub use storage::StorageView;
pub use storage::Strided;
pub use storage::StridedIndex;
pub use vec_storage_cm::VecStorageCM;
pub use vec_storage_rm::VecStorageRM;
pub use view::RefStorage;
pub use view::RefStorageMut;

verus! {

/// The failure conditions of the library: a buffer whose length does not match
/// the declared dimensions (or a split position beyond an axis extent), and a
/// checked accessor called with a row or column at or past the extent.
#[derive(Clone, Copy, Debug, PartialEq, Eq, Structural)]
pub enum Error {
    DimensionMismatch,
    IndexOutOfBounds,
}

} // verus!
