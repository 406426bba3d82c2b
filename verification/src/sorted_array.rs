//! A fixed-size container whose elements are sorted under a comparator.

use crate::comparator::{sorted_by, sorted_from, stable_from, total_order, Comparator, OrdComparator};
use crate::sorted_slice::{
    from_boxed_slice_unchecked, from_mut_slice_unchecked, from_slice_unchecked, sort_stable,
    sort_unstable, BoxedSortedSlice, SortedSlice, SortedSliceMut,
};
use std::marker::PhantomData;
use vstd::prelude::*;

verus! {

/// An array of `N` elements in the order of `C`.
pub struct SortedArray<T, const N: usize, C: Comparator<T> = OrdComparator> {
    array: [T; N],
    comparator: PhantomData<C>,
}

impl<T, const N: usize, C: Comparator<T>> View for SortedArray<T, N, C> {
    type V = Seq<T>;

    closed spec fn view(&self) -> Seq<T> {
        self.array@
    }
}

impl<T, const N: usize, C: Comparator<T>> SortedArray<T, N, C> {
    /// The elements are in the order of `C`.
    pub open spec fn wf(&self) -> bool {
        sorted_by::<T, C>(self@)
    }

    /// The elements, in sorted order.
    pub fn as_slice(&self) -> (r: &[T])
        ensures
            r@ == self@,
            r@.len() == N,
    {
        self.array.as_slice()
    }

    /// The elements for writing, with no check of their order: what is
    /// written decides whether the container is sorted afterwards.
    pub fn as_mut_slice(&mut self) -> (r: &mut [T])
        ensures
            r@ == old(self)@,
            final(self)@ == final(r)@,
    {
        vstd::array::ref_mut_array_unsizing_coercion(&mut self.array)
    }

    /// The sorted view of the elements.
    pub fn as_sorted_slice(&self) -> (r: SortedSlice<'_, T, C>)
        ensures
            r@ == self@,
            self.wf() ==> r.wf(),
    {
        from_slice_unchecked(self.array.as_slice())
    }

    /// The writable sorted view of the elements: what is written through
    /// it is what the container holds afterwards, with no check of the
    /// order.
    pub fn as_mut_sorted_slice(&mut self) -> (r: SortedSliceMut<'_, T, C>)
        ensures
            r@ == old(self)@,
            final(self)@ == final(r.slice)@,
            old(self).wf() ==> r.wf(),
    {
        from_mut_slice_unchecked(vstd::array::ref_mut_array_unsizing_coercion(&mut self.array))
    }

    /// The elements moved to the heap, in the same order.
    pub fn into_boxed_sorted_slice(self) -> (r: BoxedSortedSlice<T, C>)
        ensures
            r@ == self@,
            self.wf() ==> r.wf(),
    {
        let boxed: Box<[T]> = Box::new(self.array);
        from_boxed_slice_unchecked(boxed)
    }

    /// The elements as a plain array, in sorted order.
    pub fn into_array(self) -> (r: [T; N])
        ensures
            r@ == self@,
    {
        self.array
    }
}

impl<T: Clone, const N: usize, C: Comparator<T>> Clone for SortedArray<T, N, C> {
    /// A container of clones of the elements, in the same order.
    fn clone(&self) -> (r: Self)
        ensures
            r@.len() == self@.len(),
            forall|i: int| 0 <= i < self@.len() ==> cloned::<T>(#[trigger] self@[i], r@[i]),
    {
        SortedArray { array: self.array.clone(), comparator: PhantomData }
    }
}

/// A default value of `T`.
fn default_value<T: Default>() -> (r: T)
    ensures
        call_ensures(T::default, (), r),
{
    T::default()
}

/// Calls `<[(); N]>::map` of the standard library, which makes each element
/// by one call of `default_value`. Claims that the array holds `N` values,
/// each of them returned by the default of `T`.
#[verifier::external_body]
fn default_array<T: Default, const N: usize>() -> (r: [T; N])
    ensures
        r@.len() == N,
        forall|i: int| 0 <= i < N ==> call_ensures(T::default, (), #[trigger] r@[i]),
{
    [(); N].map(|_| default_value::<T>())
}

impl<T: Default, const N: usize, C: Comparator<T>> Default for SortedArray<T, N, C> {
    /// The container of `N` default values. Whether they are in the order
    /// of `C` is for `C` to say: it is where `C` holds a value no later
    /// than itself and the default of `T` is one value.
    fn default() -> (r: Self)
        ensures
            r@.len() == N,
            forall|i: int| 0 <= i < N ==> call_ensures(T::default, (), #[trigger] r@[i]),
    {
        SortedArray { array: default_array::<T, N>(), comparator: PhantomData }
    }
}

/// The container of an array that is taken to be sorted already.
pub fn from_array_unchecked<T, const N: usize, C: Comparator<T>>(array: [T; N]) -> (r: SortedArray<
    T,
    N,
    C,
>)
    ensures
        r@ == array@,
{
    SortedArray { array, comparator: PhantomData }
}

/// Sorts `array`, keeping the order of equal elements, and gives the
/// container of it.
pub fn sort_array<T, const N: usize, C: Comparator<T>>(array: [T; N]) -> (r: SortedArray<T, N, C>)
    requires
        total_order::<T, C>(),
    ensures
        r.wf(),
        sorted_from::<T, C>(array@, r@),
        stable_from::<T, C>(array@, r@),
{
    let mut array = array;
    sort_stable::<T, C>(vstd::array::ref_mut_array_unsizing_coercion(&mut array));
    from_array_unchecked(array)
}

/// Sorts `array`, in no particular order among equal elements, and gives
/// the container of it.
pub fn sort_array_unstable<T, const N: usize, C: Comparator<T>>(array: [T; N]) -> (r: SortedArray<
    T,
    N,
    C,
>)
    requires
        total_order::<T, C>(),
    ensures
        r.wf(),
        sorted_from::<T, C>(array@, r@),
{
    let mut array = array;
    sort_unstable::<T, C>(vstd::array::ref_mut_array_unsizing_coercion(&mut array));
    from_array_unchecked(array)
}

} // verus!
