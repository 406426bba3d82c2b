//! A container that is kept sorted in the natural order of its elements,
//! whatever holds them: a vector, an array, a boxed slice.

use crate::comparator::{sorted_by, sorted_from, stable_from, total_order, OrdComparator};
use crate::sorted_slice::{
    faithful, from_mut_slice_unchecked, from_slice_unchecked, key_bounds, key_laid_out,
    key_partitioned, keys_all, sort_stable, SortedSlice, SortedSliceMut,
};
use crate::utils::{bounds, laid_out, partitioned, probes_all};
use std::cmp::Ordering;
use std::marker::PhantomData;
use vstd::prelude::*;

verus! {

/// A container that holds its elements in one slice.
pub trait SliceStore<T> {
    /// The elements, in their order. An implementation states them.
    open spec fn elements(&self) -> Seq<T> {
        arbitrary()
    }

    /// The elements, for reading.
    fn as_elements(&self) -> (r: &[T])
        ensures
            r@ == self.elements(),
    ;

    /// The elements, for writing: what is written is what the container
    /// holds afterwards.
    fn as_mut_elements(&mut self) -> (r: &mut [T])
        ensures
            r@ == old(self).elements(),
            final(self).elements() == final(r)@,
    ;
}

/// A container that can take more elements at its end.
pub trait GrowStore<T>: SliceStore<T> {
    /// Puts `items` behind the elements, in their order.
    fn append_all(&mut self, items: Vec<T>)
        ensures
            final(self).elements() == old(self).elements() + items@,
    ;
}

impl<T> SliceStore<T> for Vec<T> {
    open spec fn elements(&self) -> Seq<T> {
        self@
    }

    fn as_elements(&self) -> (r: &[T]) {
        self.as_slice()
    }

    fn as_mut_elements(&mut self) -> (r: &mut [T]) {
        self.as_mut_slice()
    }
}

impl<T> GrowStore<T> for Vec<T> {
    fn append_all(&mut self, items: Vec<T>) {
        let mut items = items;
        self.append(&mut items);
    }
}

impl<T, const N: usize> SliceStore<T> for [T; N] {
    open spec fn elements(&self) -> Seq<T> {
        self@
    }

    fn as_elements(&self) -> (r: &[T]) {
        self.as_slice()
    }

    fn as_mut_elements(&mut self) -> (r: &mut [T]) {
        vstd::array::ref_mut_array_unsizing_coercion(self)
    }
}

impl<T> SliceStore<T> for Box<[T]> {
    open spec fn elements(&self) -> Seq<T> {
        self@
    }

    fn as_elements(&self) -> (r: &[T]) {
        &**self
    }

    fn as_mut_elements(&mut self) -> (r: &mut [T]) {
        &mut **self
    }
}

/// A container of elements in ascending natural order.
pub struct Sorted<A: SliceStore<T>, T: Ord> {
    array: A,
    element: PhantomData<T>,
}

impl<A: SliceStore<T>, T: Ord> View for Sorted<A, T> {
    type V = Seq<T>;

    closed spec fn view(&self) -> Seq<T> {
        self.array.elements()
    }
}

impl<T: Ord> Sorted<Vec<T>, T> {
    /// Collects `items` and sorts them, keeping the order of equal
    /// elements.
    pub fn from_iter(items: Vec<T>) -> (r: Sorted<Vec<T>, T>)
        requires
            total_order::<T, OrdComparator>(),
        ensures
            r.wf(),
            sorted_from::<T, OrdComparator>(items@, r@),
            stable_from::<T, OrdComparator>(items@, r@),
    {
        Sorted::new(items)
    }
}

impl<A: GrowStore<T>, T: Ord> Sorted<A, T> {
    /// Adds `item` and sorts the whole again: `item` comes to lie behind
    /// the elements equal to it.
    pub fn insert(&mut self, item: T)
        requires
            total_order::<T, OrdComparator>(),
        ensures
            final(self).wf(),
            sorted_from::<T, OrdComparator>(old(self)@.push(item), final(self)@),
            stable_from::<T, OrdComparator>(old(self)@.push(item), final(self)@),
            final(self)@.len() == old(self)@.len() + 1,
            final(self)@.to_multiset() == old(self)@.to_multiset().insert(item),
    {
        broadcast use vstd::seq_lib::group_to_multiset_ensures;

        let mut one: Vec<T> = Vec::new();
        one.push(item);
        assert(self.array.elements() + one@ =~= self.array.elements().push(item));
        self.array.append_all(one);
        sort_stable::<T, OrdComparator>(self.array.as_mut_elements());
    }

    /// Appends `items` and sorts the whole again, keeping the order of
    /// equal elements.
    pub fn extend(&mut self, items: Vec<T>)
        requires
            total_order::<T, OrdComparator>(),
        ensures
            final(self).wf(),
            sorted_from::<T, OrdComparator>(old(self)@ + items@, final(self)@),
            stable_from::<T, OrdComparator>(old(self)@ + items@, final(self)@),
    {
        self.array.append_all(items);
        sort_stable::<T, OrdComparator>(self.array.as_mut_elements());
    }
}

impl<A: SliceStore<T>, T: Ord> Sorted<A, T> {
    /// The elements are in ascending natural order.
    pub open spec fn wf(&self) -> bool {
        sorted_by::<T, OrdComparator>(self@)
    }

    /// Sorts `array`, keeping the order of equal elements, and wraps it.
    pub fn new(array: A) -> (r: Sorted<A, T>)
        requires
            total_order::<T, OrdComparator>(),
        ensures
            r.wf(),
            sorted_from::<T, OrdComparator>(array.elements(), r@),
            stable_from::<T, OrdComparator>(array.elements(), r@),
    {
        let mut array = array;
        sort_stable::<T, OrdComparator>(array.as_mut_elements());
        Sorted { array, element: PhantomData }
    }

    /// Wraps an `array` that is taken to be sorted already.
    pub fn new_assume_sorted(array: A) -> (r: Sorted<A, T>)
        ensures
            r@ == array.elements(),
    {
        Sorted { array, element: PhantomData }
    }

    /// The sorted view of the elements.
    pub fn to_slice(&self) -> (r: SortedSlice<'_, T, OrdComparator>)
        ensures
            r@ == self@,
            self.wf() ==> r.wf(),
    {
        from_slice_unchecked(self.array.as_elements())
    }

    /// The writable sorted view of the elements: what is written through
    /// it is what the container holds afterwards, with no check of the
    /// order.
    pub fn to_slice_mut(&mut self) -> (r: SortedSliceMut<'_, T, OrdComparator>)
        ensures
            r@ == old(self)@,
            final(self)@ == final(r.slice)@,
            old(self).wf() ==> r.wf(),
    {
        from_mut_slice_unchecked(self.array.as_mut_elements())
    }

    /// The elements, in sorted order.
    pub fn as_slice(&self) -> (r: &[T])
        ensures
            r@ == self@,
    {
        self.array.as_elements()
    }

    /// The elements in sorted order, front to back.
    pub fn iter(&self) -> (it: std::slice::Iter<'_, T>)
        ensures
            vstd::std_specs::slice::into_iter_elts(it) == self@,
    {
        self.to_slice().iter()
    }

    /// An element that the probe `f` holds equal to its target, if there is
    /// one: for every spec function that bounds `f` and every layout of the
    /// elements along it, `Some` holds an element of the equal band, and
    /// `None` comes only where the band is empty.
    pub fn find_by<F>(&self, f: F) -> (r: Option<&T>) where F: Fn(&T) -> Ordering
        requires
            probes_all(self@, f),
            partitioned(self@, f),
        ensures
            forall|ans: spec_fn(T) -> Ordering, lo: int, hi: int|
                bounds(f, ans) && #[trigger] laid_out(self@, ans, lo, hi) ==> match r {
                    Some(x) => exists|j: int| lo <= j < hi && *x == self@[j],
                    None => lo == hi,
                },
    {
        self.to_slice().find_by(f)
    }

    /// An element whose key, as `key_of` extracts it, is equal to `key`, if
    /// there is one: for every spec function that bounds `key_of` and every
    /// layout of the elements along its keys, `Some` holds an element of
    /// the band of equal keys, and `None` comes only where that band is
    /// empty.
    pub fn find_by_key<K, F>(&self, key: &K, key_of: F) -> (r: Option<&T>) where
        F: Fn(&T) -> K,
        K: Ord,

        requires
            faithful::<K, OrdComparator>(),
            keys_all(self@, key_of),
            key_partitioned::<T, K, OrdComparator, F>(self@, key_of, *key),
        ensures
            forall|keys: spec_fn(T) -> K, lo: int, hi: int|
                key_bounds(key_of, keys) && #[trigger] key_laid_out::<T, K, OrdComparator>(
                    self@,
                    keys,
                    *key,
                    lo,
                    hi,
                ) ==> match r {
                    Some(x) => exists|j: int| lo <= j < hi && *x == self@[j],
                    None => lo == hi,
                },
    {
        self.to_slice().find_by_key(key, key_of)
    }

    /// The band of the elements that the probe `f` holds equal to its
    /// target: for every spec function that bounds `f` and every layout of
    /// the elements along it, the equal band.
    pub fn find_range_by<F>(&self, f: F) -> (r: &[T]) where F: Fn(&T) -> Ordering
        requires
            probes_all(self@, f),
            partitioned(self@, f),
        ensures
            forall|ans: spec_fn(T) -> Ordering, lo: int, hi: int|
                bounds(f, ans) && #[trigger] laid_out(self@, ans, lo, hi) ==> r@ == self@.subrange(
                    lo,
                    hi,
                ),
    {
        self.to_slice().find_range_by(f).as_slice()
    }

    /// The band of the elements whose key, as `key_of` extracts it, is
    /// equal to `key`: for every spec function that bounds `key_of` and
    /// every layout of the elements along its keys, the band of equal keys.
    pub fn find_range_by_key<K, F>(&self, key: &K, key_of: F) -> (r: &[T]) where
        F: Fn(&T) -> K,
        K: Ord,

        requires
            faithful::<K, OrdComparator>(),
            keys_all(self@, key_of),
            key_partitioned::<T, K, OrdComparator, F>(self@, key_of, *key),
        ensures
            forall|keys: spec_fn(T) -> K, lo: int, hi: int|
                key_bounds(key_of, keys) && #[trigger] key_laid_out::<T, K, OrdComparator>(
                    self@,
                    keys,
                    *key,
                    lo,
                    hi,
                ) ==> r@ == self@.subrange(lo, hi),
    {
        self.to_slice().find_range_by_key(key, key_of).as_slice()
    }
}

impl<T: Ord + Clone> Clone for Sorted<Vec<T>, T> {
    /// A vector of clones of the elements, in the same order.
    fn clone(&self) -> (r: Self)
        ensures
            r@.len() == self@.len(),
            forall|i: int| 0 <= i < self@.len() ==> cloned::<T>(#[trigger] self@[i], r@[i]),
    {
        Sorted { array: self.array.clone(), element: PhantomData }
    }
}

} // verus!
