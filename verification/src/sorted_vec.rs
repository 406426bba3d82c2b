//! A growable container that keeps its elements sorted under a comparator.

use crate::comparator::{
    le, reversed, sorted_by, sorted_from, stable_from, total_order, Comparator, OrdComparator,
};
use crate::sorted_slice::{
    faithful, from_boxed_slice_unchecked, from_mut_slice_unchecked, from_slice_unchecked,
    item_answer, item_order, item_split, item_split_at, lemma_sorted_splits, sort_stable,
    BoxedSortedSlice, SortedSlice, SortedSliceMut,
};
use crate::utils::{band, bounds, laid_out, pos, search_by, upper_bound};
use crate::weak_borrow::WeakBorrow;
use std::cmp::Ordering;
use std::marker::PhantomData;
use vstd::prelude::*;

verus! {

/// A vector whose elements are kept in the order of `C`.
pub struct SortedVec<T, C: Comparator<T> = OrdComparator> {
    vec: Vec<T>,
    comparator: PhantomData<C>,
}

impl<T, C: Comparator<T>> View for SortedVec<T, C> {
    type V = Seq<T>;

    closed spec fn view(&self) -> Seq<T> {
        self.vec@
    }
}

/// `after` is `before` with `item` put in behind the last element that does
/// not sort after it.
pub open spec fn inserted_last<T, C: Comparator<T>>(before: Seq<T>, item: T, after: Seq<T>) -> bool {
    exists|at: int|
        {
            &&& 0 <= at <= before.len()
            &&& after == #[trigger] before.insert(at, item)
            &&& forall|j: int| 0 <= j < at ==> le::<T, C>(#[trigger] before[j], item)
            &&& forall|j: int| at <= j < before.len() ==> !le::<T, C>(#[trigger] before[j], item)
        }
}

/// Putting one element into a sequence adds it to the elements that the
/// sequence holds and changes nothing else.
pub proof fn lemma_insert_to_multiset<T>(s: Seq<T>, at: int, item: T)
    requires
        0 <= at <= s.len(),
    ensures
        s.insert(at, item).to_multiset() == s.to_multiset().insert(item),
{
    broadcast use vstd::seq_lib::group_to_multiset_ensures;

    let t = s.insert(at, item);
    assert(t.remove(at) =~= s);
    assert(t[at] == item);
    assert(t.to_multiset().count(item) > 0) by {
        assert(t.contains(item));
    }
    assert(t.to_multiset() =~= t.to_multiset().remove(item).insert(item));
}

/// Inserting behind the last element that does not sort after the new one
/// keeps a sorted sequence sorted.
pub proof fn lemma_insert_keeps_sorted<T, C: Comparator<T>>(before: Seq<T>, item: T, after: Seq<T>)
    requires
        sorted_by::<T, C>(before),
        total_order::<T, C>(),
        inserted_last::<T, C>(before, item, after),
    ensures
        sorted_by::<T, C>(after),
{
    let at = choose|at: int|
        {
            &&& 0 <= at <= before.len()
            &&& after == #[trigger] before.insert(at, item)
            &&& forall|j: int| 0 <= j < at ==> le::<T, C>(#[trigger] before[j], item)
            &&& forall|j: int| at <= j < before.len() ==> !le::<T, C>(#[trigger] before[j], item)
        };
    assert forall|i: int, j: int| 0 <= i < j < after.len() implies le::<T, C>(
        #[trigger] after[i],
        #[trigger] after[j],
    ) by {
        if j < at {
            assert(le::<T, C>(before[i], before[j]));
        } else if j == at {
            assert(le::<T, C>(before[i], item));
        } else if i == at {
            assert(!le::<T, C>(before[j - 1], item));
            assert(C::order(&item, &before[j - 1]) == reversed(C::order(&before[j - 1], &item)));
        } else if i < at {
            assert(le::<T, C>(before[i], before[j - 1]));
        } else {
            assert(le::<T, C>(before[i - 1], before[j - 1]));
        }
    }
}

/// Taking one element out of a sorted sequence leaves it sorted.
pub proof fn lemma_remove_keeps_sorted<T, C: Comparator<T>>(s: Seq<T>, at: int)
    requires
        sorted_by::<T, C>(s),
        0 <= at < s.len(),
    ensures
        sorted_by::<T, C>(s.remove(at)),
{
    let t = s.remove(at);
    assert forall|i: int, j: int| 0 <= i < j < t.len() implies le::<T, C>(
        #[trigger] t[i],
        #[trigger] t[j],
    ) by {
        let from = if i < at { i } else { i + 1 };
        let to = if j < at { j } else { j + 1 };
        assert(le::<T, C>(s[from], s[to]));
    }
}

impl<T, C: Comparator<T>> SortedVec<T, C> {
    /// The elements are in the order of `C`.
    pub open spec fn wf(&self) -> bool {
        sorted_by::<T, C>(self@)
    }

    /// A container without elements.
    pub fn new() -> (r: Self)
        ensures
            r@ == Seq::<T>::empty(),
            r.wf(),
    {
        SortedVec { vec: Vec::new(), comparator: PhantomData }
    }

    /// The elements, in sorted order.
    pub fn as_slice(&self) -> (r: &[T])
        ensures
            r@ == self@,
    {
        self.vec.as_slice()
    }

    /// The elements for writing, with no check of their order: what is
    /// written decides whether the container is sorted afterwards.
    pub fn as_mut_slice(&mut self) -> (r: &mut [T])
        ensures
            r@ == old(self)@,
            final(self)@ == final(r)@,
    {
        self.vec.as_mut_slice()
    }

    /// The number of elements.
    pub fn len(&self) -> (n: usize)
        ensures
            n == self@.len(),
    {
        self.vec.len()
    }

    /// The sorted view of the elements.
    pub fn as_sorted_slice(&self) -> (r: SortedSlice<'_, T, C>)
        ensures
            r@ == self@,
            self.wf() ==> r.wf(),
    {
        from_slice_unchecked(self.vec.as_slice())
    }

    /// The writable sorted view of the elements: what is written through
    /// it is what the container holds afterwards, with no check of the
    /// order.
    pub fn as_mut_sorted_slice(&mut self) -> (r: SortedSliceMut<'_, T, C>)
        ensures
            r@ == old(self)@,
            final(self)@ == final(r.slice)@,
            old(self).wf() ==> r.wf(),
    {
        from_mut_slice_unchecked(self.vec.as_mut_slice())
    }

    /// The elements in a box of their exact size, in the same order.
    pub fn into_boxed_sorted_slice(self) -> (r: BoxedSortedSlice<T, C>)
        ensures
            r@ == self@,
            self.wf() ==> r.wf(),
    {
        from_boxed_slice_unchecked(vec_into_boxed(self.vec))
    }

    /// The elements as a plain vector, in sorted order.
    pub fn into_vec(self) -> (r: Vec<T>)
        ensures
            r@ == self@,
    {
        self.vec
    }

    /// Puts `item` in at its sorted position, behind the elements that are
    /// equal to it.
    pub fn insert(&mut self, item: T)
        requires
            old(self).wf(),
            total_order::<T, C>(),
        ensures
            final(self).wf(),
            inserted_last::<T, C>(old(self)@, item, final(self)@),
            final(self)@.len() == old(self)@.len() + 1,
            final(self)@.to_multiset() == old(self)@.to_multiset().insert(item),
    {
        let ghost before = self.vec@;
        let new = &item;
        let probe = |it: &T| -> (o: Ordering)
            ensures
                o == item_order::<T, T, C>(*it, *new),
            { C::compare(it, new) };
        let ghost ans = item_answer::<T, T, C>(item);
        proof {
            lemma_sorted_splits::<T, C>(before, item);
        }
        let ghost (lo, hi) = choose|lo: int, hi: int|
            item_split_at::<T, T, C>(before, item, lo, hi);
        proof {
            assert(bounds(probe, ans));
            assert(laid_out(before, ans, lo, hi));
        }
        let insert_at = upper_bound(self.vec.as_slice(), &probe);
        proof {
            assert(insert_at == hi);
            assert forall|j: int| 0 <= j < before.len() implies (le::<T, C>(
                #[trigger] before[j],
                item,
            ) <==> j < insert_at) by {
                assert(item_order::<T, T, C>(before[j], item) == band(j, lo, hi));
            }
        }
        self.vec.insert(insert_at, item);
        proof {
            assert(self.vec@ == before.insert(pos(insert_at), item));
            lemma_insert_keeps_sorted::<T, C>(before, item, self.vec@);
            lemma_insert_to_multiset(before, pos(insert_at), item);
        }
    }

    /// Takes out the element at position `index`.
    pub fn remove(&mut self, index: usize) -> (r: T)
        requires
            index < old(self)@.len(),
        ensures
            r == old(self)@[pos(index)],
            final(self)@ == old(self)@.remove(pos(index)),
            old(self).wf() ==> final(self).wf(),
    {
        proof {
            if self.wf() {
                lemma_remove_keeps_sorted::<T, C>(self.vec@, pos(index));
            }
        }
        self.vec.remove(index)
    }

    /// Takes out an element equal to `item`, if there is one.
    pub fn remove_item<U>(&mut self, item: &U) -> (r: Option<T>) where
        T: WeakBorrow<U>,
        C: Comparator<U>,

        requires
            faithful::<U, C>(),
            item_split::<T, U, C>(old(self)@, *item),
        ensures
            match r {
                Some(x) => exists|j: int|
                    {
                        &&& 0 <= j < old(self)@.len()
                        &&& x == old(self)@[j]
                        &&& item_order::<T, U, C>(x, *item) == Ordering::Equal
                        &&& final(self)@ == #[trigger] old(self)@.remove(j)
                    },
                None => {
                    &&& final(self)@ == old(self)@
                    &&& forall|j: int|
                        0 <= j < old(self)@.len() ==> item_order::<T, U, C>(
                            #[trigger] old(self)@[j],
                            *item,
                        ) != Ordering::Equal
                },
            },
            old(self).wf() ==> final(self).wf(),
    {
        let ghost before = self.vec@;
        let probe = |it: &T| -> (o: Ordering)
            ensures
                o == item_order::<T, U, C>(*it, *item),
            { C::compare(it.weak_borrow(), item) };
        let ghost ans = item_answer::<T, U, C>(*item);
        let ghost (lo, hi) = choose|lo: int, hi: int|
            item_split_at::<T, U, C>(before, *item, lo, hi);
        proof {
            assert(bounds(probe, ans));
            assert(laid_out(before, ans, lo, hi));
        }
        match search_by(self.vec.as_slice(), probe) {
            Ok(index) => {
                proof {
                    assert(item_order::<T, U, C>(before[pos(index)], *item) == band(
                        pos(index),
                        lo,
                        hi,
                    ));
                    if self.wf() {
                        lemma_remove_keeps_sorted::<T, C>(before, pos(index));
                    }
                }
                Some(self.vec.remove(index))
            },
            Err(index) => {
                proof {
                    assert forall|j: int| 0 <= j < before.len() implies item_order::<T, U, C>(
                        #[trigger] before[j],
                        *item,
                    ) != Ordering::Equal by {
                        assert(item_order::<T, U, C>(before[j], *item) == band(j, lo, hi));
                    }
                }
                None
            },
        }
    }

    /// Appends `items` and sorts the whole again, keeping the order of
    /// equal elements: the old ones first, then the new ones as they came.
    pub fn extend(&mut self, items: Vec<T>)
        requires
            total_order::<T, C>(),
        ensures
            final(self).wf(),
            sorted_from::<T, C>(old(self)@ + items@, final(self)@),
            stable_from::<T, C>(old(self)@ + items@, final(self)@),
    {
        let mut items = items;
        self.vec.append(&mut items);
        sort_stable::<T, C>(self.vec.as_mut_slice());
    }
}

impl<T: Clone, C: Comparator<T>> Clone for SortedVec<T, C> {
    /// A container of clones of the elements, in the same order.
    fn clone(&self) -> (r: Self)
        ensures
            r@.len() == self@.len(),
            forall|i: int| 0 <= i < self@.len() ==> cloned::<T>(#[trigger] self@[i], r@[i]),
    {
        SortedVec { vec: self.vec.clone(), comparator: PhantomData }
    }
}

impl<T, C: Comparator<T>> Default for SortedVec<T, C> {
    /// A container without elements.
    fn default() -> (r: Self)
        ensures
            r@ == Seq::<T>::empty(),
            r.wf(),
    {
        SortedVec::new()
    }
}

/// Calls `Vec::into_boxed_slice` of the standard library. Claims that the
/// boxed slice holds the elements of the vector, in its order.
#[verifier::external_body]
fn vec_into_boxed<T>(vec: Vec<T>) -> (r: Box<[T]>)
    ensures
        r@ == vec@,
{
    vec.into_boxed_slice()
}

/// The container of a vector that is taken to be sorted already.
pub fn from_vec_unchecked<T, C: Comparator<T>>(vec: Vec<T>) -> (r: SortedVec<T, C>)
    ensures
        r@ == vec@,
{
    SortedVec { vec, comparator: PhantomData }
}

/// Sorts `vec`, keeping the order of equal elements, and gives the
/// container of it.
pub fn sort_vec<T, C: Comparator<T>>(vec: Vec<T>) -> (r: SortedVec<T, C>)
    requires
        total_order::<T, C>(),
    ensures
        r.wf(),
        sorted_from::<T, C>(vec@, r@),
        stable_from::<T, C>(vec@, r@),
{
    let mut vec = vec;
    sort_stable::<T, C>(vec.as_mut_slice());
    from_vec_unchecked(vec)
}

} // verus!
