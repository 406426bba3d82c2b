//! Containers that keep their elements sorted under a comparator, with
//! binary-search lookup of single elements and of whole bands of equal
//! elements.

pub mod comparator;
pub mod sorted;
pub mod sorted_array;
pub mod sorted_slice;
pub mod sorted_vec;
pub mod utils;
pub mod weak_borrow;

pub use crate::comparator::{Comparator, OrdComparator};
pub use crate::sorted::{GrowStore, SliceStore, Sorted};
pub use crate::sorted_array::{from_array_unchecked, sort_array, sort_array_unstable, SortedArray};
pub use crate::sorted_slice::{
    from_boxed_slice_unchecked, from_mut_slice_unchecked, from_slice_unchecked, sort_boxed_slice,
    sort_mut_slice, sort_mut_slice_unstable, BoxedSortedSlice, SortedSlice, SortedSliceMut,
};
pub use crate::sorted_vec::{from_vec_unchecked, sort_vec, SortedVec};
pub use crate::utils::{binary_search_range, lower_bound, upper_bound};
pub use crate::weak_borrow::WeakBorrow;
