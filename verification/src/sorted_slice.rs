//! A borrowed view of a sequence that is sorted under a comparator.

use crate::comparator::{
    le, reversed, sorted_by, sorted_from, stable_from, total_order, Comparator, OrdComparator,
};
use crate::utils::{
    band, binary_search_range, bounds, laid_out, lemma_band_is_filter, partitioned, probes_all,
    search_by,
};
use crate::weak_borrow::WeakBorrow;
use std::cmp::Ordering;
use std::marker::PhantomData;
use vstd::prelude::*;

verus! {

/// A view of a borrowed slice whose elements are in the order of `C`.
///
/// The view never copies, grows or shrinks what it looks at.
pub struct SortedSlice<'a, T, C: Comparator<T> = OrdComparator> {
    slice: &'a [T],
    comparator: PhantomData<C>,
}

/// `C` compares values of type `T` as its `order` says.
pub open spec fn faithful<T, C: Comparator<T>>() -> bool {
    C::obeys()
}

/// The answer of `C` on the `U` that `x` is seen as, against `item`.
pub open spec fn item_order<T: WeakBorrow<U>, U, C: Comparator<U>>(x: T, item: U) -> Ordering {
    C::order(&x.weak_view(), &item)
}

/// `s` is laid out consistently with a lookup of `item`, the band of the
/// elements equal to it being `lo..hi`.
pub open spec fn item_split_at<T: WeakBorrow<U>, U, C: Comparator<U>>(
    s: Seq<T>,
    item: U,
    lo: int,
    hi: int,
) -> bool {
    &&& 0 <= lo <= hi <= s.len()
    &&& forall|j: int|
        0 <= j < s.len() ==> item_order::<T, U, C>(#[trigger] s[j], item) == band(j, lo, hi)
}

/// `s` is sorted consistently with a lookup of `item`.
pub open spec fn item_split<T: WeakBorrow<U>, U, C: Comparator<U>>(s: Seq<T>, item: U) -> bool {
    exists|lo: int, hi: int| item_split_at::<T, U, C>(s, item, lo, hi)
}

/// The key extractor `f` can be called on every element of `s`.
pub open spec fn keys_all<T, K, F: Fn(&T) -> K>(s: Seq<T>, f: F) -> bool {
    forall|j: int| 0 <= j < s.len() ==> call_requires(f, (&#[trigger] s[j],))
}

/// The spec function `key_of` bounds the key extractor `f`: whatever `f`
/// returns on a value is the key that `key_of` gives it.
pub open spec fn key_bounds<T, K, F: Fn(&T) -> K>(f: F, key_of: spec_fn(T) -> K) -> bool {
    forall|x: T, k: K| call_ensures(f, (&x,), k) ==> k == key_of(x)
}

/// `s` is laid out along the keys that `key_of` gives, the band of the keys
/// equal to `key` being `lo..hi`: the keys before `lo` lie below `key`,
/// those from `hi` on above it.
pub open spec fn key_laid_out<T, K, C: Comparator<K>>(
    s: Seq<T>,
    key_of: spec_fn(T) -> K,
    key: K,
    lo: int,
    hi: int,
) -> bool {
    &&& 0 <= lo <= hi <= s.len()
    &&& forall|j: int|
        0 <= j < s.len() ==> C::order(&key_of(#[trigger] s[j]), &key) == band(j, lo, hi)
}

/// `s` is sorted consistently with the keys that `f` extracts, as far as a
/// lookup of `key` can tell: some spec function bounds `f`, and `s` is laid
/// out along its keys.
pub open spec fn key_partitioned<T, K, C: Comparator<K>, F: Fn(&T) -> K>(
    s: Seq<T>,
    f: F,
    key: K,
) -> bool {
    exists|key_of: spec_fn(T) -> K, lo: int, hi: int|
        key_bounds(f, key_of) && #[trigger] key_laid_out::<T, K, C>(s, key_of, key, lo, hi)
}

/// How the key that `key_of` gives a value compares to `key`.
pub open spec fn key_answer<T, K, C: Comparator<K>>(key_of: spec_fn(T) -> K, key: K) -> spec_fn(
    T,
) -> Ordering {
    |x: T| C::order(&key_of(x), &key)
}

/// How the `U` that a value is seen as compares to `item`.
pub open spec fn item_answer<T: WeakBorrow<U>, U, C: Comparator<U>>(item: U) -> spec_fn(
    T,
) -> Ordering {
    |x: T| item_order::<T, U, C>(x, item)
}

/// A sequence sorted under a total order is laid out consistently with the
/// lookup of any value of its element type: the elements below the value
/// come first, those equal to it next, those above it last.
pub proof fn lemma_sorted_splits<T, C: Comparator<T>>(s: Seq<T>, item: T)
    requires
        sorted_by::<T, C>(s),
        total_order::<T, C>(),
    ensures
        item_split::<T, T, C>(s, item),
    decreases s.len(),
{
    if s.len() == 0 {
        assert(item_split_at::<T, T, C>(s, item, 0, 0));
    } else {
        let front = s.drop_last();
        let last = s.last();
        assert forall|i: int, j: int| 0 <= i < j < front.len() implies le::<T, C>(
            #[trigger] front[i],
            #[trigger] front[j],
        ) by {
            assert(front[i] == s[i] && front[j] == s[j]);
        }
        lemma_sorted_splits::<T, C>(front, item);
        let (lo, hi) = choose|lo: int, hi: int| item_split_at::<T, T, C>(front, item, lo, hi);
        let n: int = s.len() - 1;
        assert forall|j: int| 0 <= j < n implies item_order::<T, T, C>(#[trigger] s[j], item)
            == band(j, lo, hi) by {
            assert(s[j] == front[j]);
        }
        match C::order(&last, &item) {
            Ordering::Greater => {
                assert(item_split_at::<T, T, C>(s, item, lo, hi));
            },
            Ordering::Equal => {
                if hi < n {
                    assert(item_order::<T, T, C>(s[hi], item) == band(hi, lo, hi));
                    assert(le::<T, C>(s[hi], s[n]));
                    assert(le::<T, C>(last, item));
                    assert(le::<T, C>(s[hi], item));
                }
                assert(item_split_at::<T, T, C>(s, item, lo, n + 1));
            },
            Ordering::Less => {
                if lo < n {
                    assert(item_order::<T, T, C>(s[lo], item) == band(lo, lo, hi));
                    assert(C::order(&s[lo], &item) == reversed(C::order(&item, &s[lo])));
                    assert(C::order(&last, &item) == reversed(C::order(&item, &last)));
                    assert(le::<T, C>(item, s[lo]));
                    assert(le::<T, C>(s[lo], s[n]));
                    assert(le::<T, C>(item, last));
                }
                assert(item_split_at::<T, T, C>(s, item, n + 1, n + 1));
            },
        }
    }
}

/// The `U` that `x` is seen as.
pub open spec fn seen_as<T: WeakBorrow<U>, U>(x: T) -> U {
    x.weak_view()
}

/// Seeing elements as `U`s keeps their order: where `x` sorts no later than
/// `y`, what `x` is seen as sorts no later than what `y` is seen as.
pub open spec fn views_agree<T: WeakBorrow<U>, U, C: Comparator<T> + Comparator<U>>() -> bool {
    forall|x: T, y: T| #[trigger]
        le::<T, C>(x, y) ==> le::<U, C>(seen_as::<T, U>(x), seen_as::<T, U>(y))
}

/// A sorted sequence is laid out consistently with the lookup of any value
/// of a narrower type, where the order of that type is total and seeing the
/// elements as values of it keeps their order.
pub proof fn lemma_sorted_views_split<T: WeakBorrow<U>, U, C: Comparator<T> + Comparator<U>>(
    s: Seq<T>,
    item: U,
)
    requires
        sorted_by::<T, C>(s),
        total_order::<U, C>(),
        views_agree::<T, U, C>(),
    ensures
        item_split::<T, U, C>(s, item),
{
    let views = Seq::new(s.len(), |j: int| seen_as::<T, U>(s[j]));
    assert forall|i: int, j: int| 0 <= i < j < views.len() implies le::<U, C>(
        #[trigger] views[i],
        #[trigger] views[j],
    ) by {
        assert(le::<T, C>(s[i], s[j]));
    }
    lemma_sorted_splits::<U, C>(views, item);
    let (lo, hi) = choose|lo: int, hi: int| item_split_at::<U, U, C>(views, item, lo, hi);
    assert forall|j: int| 0 <= j < s.len() implies item_order::<T, U, C>(#[trigger] s[j], item)
        == band(j, lo, hi) by {
        assert(item_order::<U, U, C>(views[j], item) == band(j, lo, hi));
    }
    assert(item_split_at::<T, U, C>(s, item, lo, hi));
}

/// The keys that `key_of` gives do not decrease along `s`.
pub open spec fn keys_sorted<T, K, C: Comparator<K>>(s: Seq<T>, key_of: spec_fn(T) -> K) -> bool {
    forall|i: int, j: int|
        0 <= i < j < s.len() ==> le::<K, C>(key_of(#[trigger] s[i]), key_of(#[trigger] s[j]))
}

/// A sequence along which the keys do not decrease is laid out along them
/// for the lookup of any key.
pub proof fn lemma_sorted_keys_split<T, K, C: Comparator<K>>(
    s: Seq<T>,
    key_of: spec_fn(T) -> K,
    key: K,
)
    requires
        total_order::<K, C>(),
        keys_sorted::<T, K, C>(s, key_of),
    ensures
        exists|lo: int, hi: int| key_laid_out::<T, K, C>(s, key_of, key, lo, hi),
{
    let keys = Seq::new(s.len(), |j: int| key_of(s[j]));
    assert forall|i: int, j: int| 0 <= i < j < keys.len() implies le::<K, C>(
        #[trigger] keys[i],
        #[trigger] keys[j],
    ) by {
        assert(le::<K, C>(key_of(s[i]), key_of(s[j])));
    }
    lemma_sorted_splits::<K, C>(keys, key);
    let (lo, hi) = choose|lo: int, hi: int| item_split_at::<K, K, C>(keys, key, lo, hi);
    assert forall|j: int| 0 <= j < s.len() implies C::order(&key_of(#[trigger] s[j]), &key)
        == band(j, lo, hi) by {
        assert(item_order::<K, K, C>(keys[j], key) == band(j, lo, hi));
    }
    assert(key_laid_out::<T, K, C>(s, key_of, key, lo, hi));
}

/// The band of a lookup by key holds every element whose key is equal to
/// `key`: the sequence has as many of them as the band is long.
pub proof fn lemma_key_band_holds_all<T, K, C: Comparator<K>>(
    s: Seq<T>,
    key_of: spec_fn(T) -> K,
    key: K,
    lo: int,
    hi: int,
)
    requires
        key_laid_out::<T, K, C>(s, key_of, key, lo, hi),
    ensures
        s.filter(|x: T| C::order(&key_of(x), &key) == Ordering::Equal) == s.subrange(lo, hi),
        s.filter(|x: T| C::order(&key_of(x), &key) == Ordering::Equal).len() == hi - lo,
{
    let p = |x: T| C::order(&key_of(x), &key) == Ordering::Equal;
    assert forall|j: int| 0 <= j < s.len() implies (p(#[trigger] s[j]) <==> lo <= j < hi) by {
        assert(C::order(&key_of(s[j]), &key) == band(j, lo, hi));
    }
    lemma_band_is_filter(s, p, lo, hi);
}

impl<'a, T, C: Comparator<T>> View for SortedSlice<'a, T, C> {
    type V = Seq<T>;

    closed spec fn view(&self) -> Seq<T> {
        self.slice@
    }
}

impl<'a, T, C: Comparator<T>> SortedSlice<'a, T, C> {
    /// The elements are in the order of `C`.
    pub open spec fn wf(&self) -> bool {
        sorted_by::<T, C>(self@)
    }

    /// The slice that this view looks at.
    pub fn as_slice(&self) -> (r: &'a [T])
        ensures
            r@ == self@,
    {
        self.slice
    }

    /// The number of elements.
    pub fn len(&self) -> (n: usize)
        ensures
            n == self@.len(),
    {
        self.slice.len()
    }

    /// Whether there is no element.
    pub fn is_empty(&self) -> (b: bool)
        ensures
            b == (self@.len() == 0),
    {
        self.slice.len() == 0
    }

    /// The elements in sorted order, front to back.
    pub fn iter(&self) -> (it: std::slice::Iter<'a, T>)
        ensures
            vstd::std_specs::slice::into_iter_elts(it) == self@,
    {
        broadcast use vstd::std_specs::slice::axiom_spec_slice_iter;
        let it = self.slice.iter();
        assert(vstd::std_specs::slice::into_iter_elts(it) =~= self.slice@);
        it
    }

    /// Whether some element is equal to `item`.
    pub fn contains<U>(&self, item: &U) -> (b: bool) where T: WeakBorrow<U>, C: Comparator<U>
        requires
            faithful::<U, C>(),
            item_split::<T, U, C>(self@, *item),
        ensures
            b == exists|j: int|
                0 <= j < self@.len() && item_order::<T, U, C>(self@[j], *item) == Ordering::Equal,
    {
        self.find(item).is_some()
    }

    /// An element equal to `item`, if there is one.
    pub fn find<U>(&self, item: &U) -> (r: Option<&'a T>) where T: WeakBorrow<U>, C: Comparator<U>
        requires
            faithful::<U, C>(),
            item_split::<T, U, C>(self@, *item),
        ensures
            match r {
                Some(x) => exists|j: int|
                    0 <= j < self@.len() && *x == self@[j] && item_order::<T, U, C>(
                        self@[j],
                        *item,
                    ) == Ordering::Equal,
                None => forall|j: int|
                    0 <= j < self@.len() ==> item_order::<T, U, C>(#[trigger] self@[j], *item)
                        != Ordering::Equal,
            },
    {
        let probe = |it: &T| -> (o: Ordering)
            ensures
                o == item_order::<T, U, C>(*it, *item),
            { C::compare(it.weak_borrow(), item) };
        let ghost ans = item_answer::<T, U, C>(*item);
        let ghost (lo, hi) = choose|lo: int, hi: int|
            item_split_at::<T, U, C>(self@, *item, lo, hi);
        proof {
            assert(bounds(probe, ans));
            assert(laid_out(self@, ans, lo, hi));
        }
        let r = self.find_by(probe);
        proof {
            match r {
                Some(x) => {
                    let j = choose|j: int| lo <= j < hi && *x == self@[j];
                    assert(item_order::<T, U, C>(self@[j], *item) == band(j, lo, hi));
                },
                None => {
                    assert forall|j: int| 0 <= j < self@.len() implies item_order::<T, U, C>(
                        #[trigger] self@[j],
                        *item,
                    ) != Ordering::Equal by {
                        assert(item_order::<T, U, C>(self@[j], *item) == band(j, lo, hi));
                    }
                },
            }
        }
        r
    }

    /// An element that the probe `f` holds equal to its target, if there is
    /// one: for every spec function that bounds `f` and every layout of the
    /// elements along it, `Some` holds an element of the equal band, and
    /// `None` comes only where the band is empty.
    pub fn find_by<F>(&self, f: F) -> (r: Option<&'a T>) where F: Fn(&T) -> Ordering
        requires
            probes_all(self@, f),
            partitioned(self@, f),
        ensures
            forall|ans: spec_fn(T) -> Ordering, lo: int, hi: int|
                bounds(f, ans) && #[trigger] laid_out(self@, ans, lo, hi) ==> match r {
                    Some(x) => exists|j: int| lo <= j < hi && *x == self@[j],
                    None => lo == hi,
                },
    {
        proof {
            let (ans, lo, hi) = choose|ans: spec_fn(T) -> Ordering, lo: int, hi: int|
                bounds(f, ans) && #[trigger] laid_out(self@, ans, lo, hi);
            assert(laid_out(self@, ans, lo, hi));
        }
        match search_by(self.slice, f) {
            Ok(index) => {
                let found = &self.slice[index];
                proof {
                    assert forall|ans: spec_fn(T) -> Ordering, lo: int, hi: int|
                        bounds(f, ans) && #[trigger] laid_out(self@, ans, lo, hi) implies exists|
                        j: int,
                    |
                        lo <= j < hi && *found == self@[j] by {
                        assert(lo <= index < hi && *found == self@[crate::utils::pos(index)]);
                    }
                }
                Some(found)
            },
            Err(_) => None,
        }
    }

    /// An element whose key, as `f` extracts it, is equal to `key`, if there
    /// is one: for every spec function that bounds `f` and every layout of
    /// the elements along its keys, `Some` holds an element of the band of
    /// equal keys, and `None` comes only where that band is empty.
    pub fn find_by_key<K, F>(&self, key: &K, f: F) -> (r: Option<&'a T>) where
        F: Fn(&T) -> K,
        C: Comparator<K>,

        requires
            faithful::<K, C>(),
            keys_all(self@, f),
            key_partitioned::<T, K, C, F>(self@, f, *key),
        ensures
            forall|key_of: spec_fn(T) -> K, lo: int, hi: int|
                key_bounds(f, key_of) && #[trigger] key_laid_out::<T, K, C>(
                    self@,
                    key_of,
                    *key,
                    lo,
                    hi,
                ) ==> match r {
                    Some(x) => exists|j: int| lo <= j < hi && *x == self@[j],
                    None => lo == hi,
                },
    {
        let extract = &f;
        let probe = |it: &T| -> (o: Ordering)
            requires
                call_requires(extract, (it,)),
            ensures
                exists|k: K| #[trigger] call_ensures(extract, (it,), k) && o == C::order(&k, key),
            {
                let k = extract(it);
                C::compare(&k, key)
            };
        proof {
            let (key_of, lo, hi) = choose|key_of: spec_fn(T) -> K, lo: int, hi: int|
                key_bounds(f, key_of) && #[trigger] key_laid_out::<T, K, C>(
                    self@,
                    key_of,
                    *key,
                    lo,
                    hi,
                );
            let ans = key_answer::<T, K, C>(key_of, *key);
            assert(bounds(probe, ans));
            assert(laid_out(self@, ans, lo, hi));
        }
        let r = self.find_by(probe);
        proof {
            assert forall|key_of: spec_fn(T) -> K, lo: int, hi: int|
                key_bounds(f, key_of) && #[trigger] key_laid_out::<T, K, C>(
                    self@,
                    key_of,
                    *key,
                    lo,
                    hi,
                ) implies match r {
                Some(x) => exists|j: int| lo <= j < hi && *x == self@[j],
                None => lo == hi,
            } by {
                let ans = key_answer::<T, K, C>(key_of, *key);
                assert(bounds(probe, ans));
                assert(laid_out(self@, ans, lo, hi));
            }
        }
        r
    }

    /// The band of the elements equal to `item`.
    pub fn find_range<U>(&self, item: &U) -> (r: SortedSlice<'a, T, C>) where
        T: WeakBorrow<U>,
        C: Comparator<U>,

        requires
            faithful::<U, C>(),
            item_split::<T, U, C>(self@, *item),
        ensures
            exists|lo: int, hi: int| #[trigger]
                item_split_at::<T, U, C>(self@, *item, lo, hi) && r@ == self@.subrange(lo, hi),
            self.wf() ==> r.wf(),
    {
        let probe = |it: &T| -> (o: Ordering)
            ensures
                o == item_order::<T, U, C>(*it, *item),
            { C::compare(it.weak_borrow(), item) };
        let ghost ans = item_answer::<T, U, C>(*item);
        let ghost (lo, hi) = choose|lo: int, hi: int|
            item_split_at::<T, U, C>(self@, *item, lo, hi);
        proof {
            assert(bounds(probe, ans));
            assert(laid_out(self@, ans, lo, hi));
        }
        let r = self.find_range_by(probe);
        proof {
            assert(item_split_at::<T, U, C>(self@, *item, lo, hi) && r@ == self@.subrange(lo, hi));
        }
        r
    }

    /// The band of the elements that the probe `f` holds equal to its
    /// target: for every spec function that bounds `f` and every layout of
    /// the elements along it, the view of the equal band.
    pub fn find_range_by<F>(&self, f: F) -> (r: SortedSlice<'a, T, C>) where F: Fn(&T) -> Ordering
        requires
            probes_all(self@, f),
            partitioned(self@, f),
        ensures
            forall|ans: spec_fn(T) -> Ordering, lo: int, hi: int|
                bounds(f, ans) && #[trigger] laid_out(self@, ans, lo, hi) ==> r@ == self@.subrange(
                    lo,
                    hi,
                ),
            self.wf() ==> r.wf(),
    {
        let (low, high) = binary_search_range(self.slice, f);
        self.index_range(low, high)
    }

    /// The band of the elements whose key, as `f` extracts it, is equal to
    /// `key`: for every spec function that bounds `f` and every layout of
    /// the elements along its keys, the view of the band of equal keys.
    pub fn find_range_by_key<K, F>(&self, key: &K, f: F) -> (r: SortedSlice<'a, T, C>) where
        F: Fn(&T) -> K,
        C: Comparator<K>,

        requires
            faithful::<K, C>(),
            keys_all(self@, f),
            key_partitioned::<T, K, C, F>(self@, f, *key),
        ensures
            forall|key_of: spec_fn(T) -> K, lo: int, hi: int|
                key_bounds(f, key_of) && #[trigger] key_laid_out::<T, K, C>(
                    self@,
                    key_of,
                    *key,
                    lo,
                    hi,
                ) ==> r@ == self@.subrange(lo, hi),
            self.wf() ==> r.wf(),
    {
        let extract = &f;
        let probe = |it: &T| -> (o: Ordering)
            requires
                call_requires(extract, (it,)),
            ensures
                exists|k: K| #[trigger] call_ensures(extract, (it,), k) && o == C::order(&k, key),
            {
                let k = extract(it);
                C::compare(&k, key)
            };
        proof {
            let (key_of, lo, hi) = choose|key_of: spec_fn(T) -> K, lo: int, hi: int|
                key_bounds(f, key_of) && #[trigger] key_laid_out::<T, K, C>(
                    self@,
                    key_of,
                    *key,
                    lo,
                    hi,
                );
            let ans = key_answer::<T, K, C>(key_of, *key);
            assert(bounds(probe, ans));
            assert(laid_out(self@, ans, lo, hi));
        }
        let r = self.find_range_by(probe);
        proof {
            assert forall|key_of: spec_fn(T) -> K, lo: int, hi: int|
                key_bounds(f, key_of) && #[trigger] key_laid_out::<T, K, C>(
                    self@,
                    key_of,
                    *key,
                    lo,
                    hi,
                ) implies r@ == self@.subrange(lo, hi) by {
                let ans = key_answer::<T, K, C>(key_of, *key);
                assert(bounds(probe, ans));
                assert(laid_out(self@, ans, lo, hi));
            }
        }
        r
    }

    /// As `find_range`, for a caller that holds this view exclusively. The
    /// view is for reading, and so is the band; the band that can be
    /// written comes from `SortedSliceMut::find_mut_range`.
    pub fn find_mut_range<U>(&mut self, item: &U) -> (r: SortedSlice<'a, T, C>) where
        T: WeakBorrow<U>,
        C: Comparator<U>,

        requires
            faithful::<U, C>(),
            item_split::<T, U, C>(old(self)@, *item),
        ensures
            final(self)@ == old(self)@,
            exists|lo: int, hi: int| #[trigger]
                item_split_at::<T, U, C>(old(self)@, *item, lo, hi) && r@ == old(self)@.subrange(
                    lo,
                    hi,
                ),
            old(self).wf() ==> r.wf(),
    {
        self.find_range(item)
    }

    /// As `find_range_by`, for a caller that holds this view exclusively.
    /// The view is for reading, and so is the band; the band that can be
    /// written comes from `SortedSliceMut::find_mut_range_by`.
    pub fn find_mut_range_by<F>(&mut self, f: F) -> (r: SortedSlice<'a, T, C>) where
        F: Fn(&T) -> Ordering,

        requires
            probes_all(old(self)@, f),
            partitioned(old(self)@, f),
        ensures
            final(self)@ == old(self)@,
            forall|ans: spec_fn(T) -> Ordering, lo: int, hi: int|
                bounds(f, ans) && #[trigger] laid_out(old(self)@, ans, lo, hi) ==> r@ == old(
                    self,
                )@.subrange(lo, hi),
            old(self).wf() ==> r.wf(),
    {
        self.find_range_by(f)
    }

    /// As `find_range_by_key`, for a caller that holds this view
    /// exclusively. The view is for reading, and so is the band; the band
    /// that can be written comes from `SortedSliceMut::find_mut_range_by_key`.
    pub fn find_mut_range_by_key<K, F>(&mut self, key: &K, f: F) -> (r: SortedSlice<'a, T, C>) where
        F: Fn(&T) -> K,
        C: Comparator<K>,

        requires
            faithful::<K, C>(),
            keys_all(old(self)@, f),
            key_partitioned::<T, K, C, F>(old(self)@, f, *key),
        ensures
            final(self)@ == old(self)@,
            forall|key_of: spec_fn(T) -> K, lo: int, hi: int|
                key_bounds(f, key_of) && #[trigger] key_laid_out::<T, K, C>(
                    old(self)@,
                    key_of,
                    *key,
                    lo,
                    hi,
                ) ==> r@ == old(self)@.subrange(lo, hi),
            old(self).wf() ==> r.wf(),
    {
        self.find_range_by_key(key, f)
    }

    /// The element at position `index`.
    pub fn index(&self, index: usize) -> (r: &'a T)
        requires
            index < self@.len(),
        ensures
            *r == self@[index as int],
    {
        &self.slice[index]
    }

    /// The view of the elements at `start..end`.
    pub fn index_range(&self, start: usize, end: usize) -> (r: SortedSlice<'a, T, C>)
        requires
            start <= end <= self@.len(),
        ensures
            r@ == self@.subrange(start as int, end as int),
            self.wf() ==> r.wf(),
    {
        from_slice_unchecked(vstd::slice::slice_subrange(self.slice, start, end))
    }

    /// The view of the elements at `start..`.
    pub fn index_range_from(&self, start: usize) -> (r: SortedSlice<'a, T, C>)
        requires
            start <= self@.len(),
        ensures
            r@ == self@.subrange(start as int, self@.len() as int),
            self.wf() ==> r.wf(),
    {
        self.index_range(start, self.slice.len())
    }

    /// The view of the elements at `..end`.
    pub fn index_range_to(&self, end: usize) -> (r: SortedSlice<'a, T, C>)
        requires
            end <= self@.len(),
        ensures
            r@ == self@.subrange(0, end as int),
            self.wf() ==> r.wf(),
    {
        self.index_range(0, end)
    }

    /// The view of all the elements.
    pub fn index_range_full(&self) -> (r: SortedSlice<'a, T, C>)
        ensures
            r@ == self@,
            self.wf() ==> r.wf(),
    {
        from_slice_unchecked(self.slice)
    }

    /// The view of the elements at `start..=end`.
    pub fn index_range_inclusive(&self, start: usize, end: usize) -> (r: SortedSlice<'a, T, C>)
        requires
            end < self@.len(),
            start <= end + 1,
        ensures
            r@ == self@.subrange(start as int, end + 1),
            self.wf() ==> r.wf(),
    {
        let len = self.slice.len();
        assert(end < len);
        self.index_range(start, end + 1)
    }

    /// The view of the elements at `..=end`.
    pub fn index_range_to_inclusive(&self, end: usize) -> (r: SortedSlice<'a, T, C>)
        requires
            end < self@.len(),
        ensures
            r@ == self@.subrange(0, end + 1),
            self.wf() ==> r.wf(),
    {
        let len = self.slice.len();
        assert(end < len);
        self.index_range(0, end + 1)
    }
}

impl<'a, T, C: Comparator<T>> Clone for SortedSlice<'a, T, C> {
    /// Another view of the same elements.
    fn clone(&self) -> (r: Self)
        ensures
            r@ == self@,
    {
        SortedSlice { slice: self.slice, comparator: PhantomData }
    }
}

impl<'a, T, C: Comparator<T>> Copy for SortedSlice<'a, T, C> {

}

/// The view of a slice that is taken to be sorted already: nothing is
/// copied, compared or moved.
pub fn from_slice_unchecked<'a, T, C: Comparator<T>>(slice: &'a [T]) -> (r: SortedSlice<'a, T, C>)
    ensures
        r@ == slice@,
{
    SortedSlice { slice, comparator: PhantomData }
}

/// A view of an exclusively borrowed slice whose elements are in the order
/// of `C`, through which they can be looked up and written.
///
/// Nothing checks what is written: whoever writes keeps the elements in
/// order, or the lookups on them answer at random.
pub struct SortedSliceMut<'a, T, C: Comparator<T> = OrdComparator> {
    /// The borrowed elements.
    pub slice: &'a mut [T],
    /// The comparator that the elements are ordered by.
    pub comparator: PhantomData<C>,
}

impl<'a, T, C: Comparator<T>> View for SortedSliceMut<'a, T, C> {
    type V = Seq<T>;

    open spec fn view(&self) -> Seq<T> {
        self.slice@
    }
}

/// `whole` with the elements at `lo..hi` replaced by `part`.
pub open spec fn spliced<T>(whole: Seq<T>, lo: int, hi: int, part: Seq<T>) -> Seq<T> {
    whole.subrange(0, lo) + part + whole.subrange(hi, whole.len() as int)
}

impl<'a, T, C: Comparator<T>> SortedSliceMut<'a, T, C> {
    /// The elements are in the order of `C`.
    pub open spec fn wf(&self) -> bool {
        sorted_by::<T, C>(self@)
    }

    /// The elements, for reading.
    pub fn as_slice(&self) -> (r: &[T])
        ensures
            r@ == self@,
    {
        &*self.slice
    }

    /// The elements, for writing, with no check of their order.
    pub fn as_mut_slice(&mut self) -> (r: &mut [T])
        ensures
            r@ == old(self)@,
            final(self)@ == final(r)@,
            final(final(self).slice)@ == final(old(self).slice)@,
    {
        &mut *self.slice
    }

    /// The read-only sorted view of the elements.
    pub fn as_sorted_slice(&self) -> (r: SortedSlice<'_, T, C>)
        ensures
            r@ == self@,
            self.wf() ==> r.wf(),
    {
        from_slice_unchecked(&*self.slice)
    }

    /// The number of elements.
    pub fn len(&self) -> (n: usize)
        ensures
            n == self@.len(),
    {
        self.slice.len()
    }

    /// The writable view of the elements at `start..end`: what is written
    /// through it takes their place, and the other elements stay.
    pub fn index_mut_range(self, start: usize, end: usize) -> (r: SortedSliceMut<'a, T, C>)
        requires
            start <= end <= self@.len(),
        ensures
            r@ == self@.subrange(start as int, end as int),
            final(self.slice)@ == spliced(self@, start as int, end as int, final(r.slice)@),
            self.wf() ==> r.wf(),
    {
        let (front, _back) = self.slice.split_at_mut(end);
        let (_head, part) = front.split_at_mut(start);
        SortedSliceMut { slice: part, comparator: PhantomData }
    }

    /// The writable view of the band of the elements equal to `item`.
    pub fn find_mut_range<U>(self, item: &U) -> (r: SortedSliceMut<'a, T, C>) where
        T: WeakBorrow<U>,
        C: Comparator<U>,

        requires
            faithful::<U, C>(),
            item_split::<T, U, C>(self@, *item),
        ensures
            exists|lo: int, hi: int|
                {
                    &&& #[trigger] item_split_at::<T, U, C>(self@, *item, lo, hi)
                    &&& r@ == self@.subrange(lo, hi)
                    &&& final(self.slice)@ == spliced(self@, lo, hi, final(r.slice)@)
                },
            self.wf() ==> r.wf(),
    {
        let probe = |it: &T| -> (o: Ordering)
            ensures
                o == item_order::<T, U, C>(*it, *item),
            { C::compare(it.weak_borrow(), item) };
        let ghost ans = item_answer::<T, U, C>(*item);
        let ghost (lo, hi) = choose|lo: int, hi: int|
            item_split_at::<T, U, C>(self@, *item, lo, hi);
        proof {
            assert(bounds(probe, ans));
            assert(laid_out(self@, ans, lo, hi));
        }
        let ghost whole = self@;
        let ghost after = final(self.slice)@;
        let r = self.find_mut_range_by(probe);
        proof {
            assert(item_split_at::<T, U, C>(whole, *item, lo, hi) && r@ == whole.subrange(lo, hi)
                && after == spliced(whole, lo, hi, final(r.slice)@));
        }
        r
    }

    /// The writable view of the band of the elements that the probe `f`
    /// holds equal to its target: for every spec function that bounds `f`
    /// and every layout of the elements along it, the view of the equal
    /// band, through which its elements are replaced while the others stay.
    pub fn find_mut_range_by<F>(self, f: F) -> (r: SortedSliceMut<'a, T, C>) where
        F: Fn(&T) -> Ordering,

        requires
            probes_all(self@, f),
            partitioned(self@, f),
        ensures
            forall|ans: spec_fn(T) -> Ordering, lo: int, hi: int|
                bounds(f, ans) && #[trigger] laid_out(self@, ans, lo, hi) ==> r@
                    == self@.subrange(lo, hi) && final(self.slice)@ == spliced(
                    self@,
                    lo,
                    hi,
                    final(r.slice)@,
                ),
            self.wf() ==> r.wf(),
    {
        let (low, high) = binary_search_range(&*self.slice, f);
        self.index_mut_range(low, high)
    }

    /// The writable view of the band of the elements whose key, as `f`
    /// extracts it, is equal to `key`: for every spec function that bounds
    /// `f` and every layout of the elements along its keys, the view of the
    /// band of equal keys, through which its elements are replaced while
    /// the others stay.
    pub fn find_mut_range_by_key<K, F>(self, key: &K, f: F) -> (r: SortedSliceMut<'a, T, C>) where
        F: Fn(&T) -> K,
        C: Comparator<K>,

        requires
            faithful::<K, C>(),
            keys_all(self@, f),
            key_partitioned::<T, K, C, F>(self@, f, *key),
        ensures
            forall|key_of: spec_fn(T) -> K, lo: int, hi: int|
                key_bounds(f, key_of) && #[trigger] key_laid_out::<T, K, C>(
                    self@,
                    key_of,
                    *key,
                    lo,
                    hi,
                ) ==> r@ == self@.subrange(lo, hi) && final(self.slice)@ == spliced(
                    self@,
                    lo,
                    hi,
                    final(r.slice)@,
                ),
            self.wf() ==> r.wf(),
    {
        let extract = &f;
        let probe = |it: &T| -> (o: Ordering)
            requires
                call_requires(extract, (it,)),
            ensures
                exists|k: K| #[trigger] call_ensures(extract, (it,), k) && o == C::order(&k, key),
            {
                let k = extract(it);
                C::compare(&k, key)
            };
        proof {
            let (key_of, lo, hi) = choose|key_of: spec_fn(T) -> K, lo: int, hi: int|
                key_bounds(f, key_of) && #[trigger] key_laid_out::<T, K, C>(
                    self@,
                    key_of,
                    *key,
                    lo,
                    hi,
                );
            let ans = key_answer::<T, K, C>(key_of, *key);
            assert(bounds(probe, ans));
            assert(laid_out(self@, ans, lo, hi));
        }
        let ghost whole = self@;
        let ghost after = final(self.slice)@;
        let r = self.find_mut_range_by(probe);
        proof {
            assert forall|key_of: spec_fn(T) -> K, lo: int, hi: int|
                key_bounds(f, key_of) && #[trigger] key_laid_out::<T, K, C>(
                    whole,
                    key_of,
                    *key,
                    lo,
                    hi,
                ) implies r@ == whole.subrange(lo, hi) && after == spliced(
                whole,
                lo,
                hi,
                final(r.slice)@,
            ) by {
                let ans = key_answer::<T, K, C>(key_of, *key);
                assert(bounds(probe, ans));
                assert(laid_out(whole, ans, lo, hi));
            }
        }
        r
    }
}

/// The writable view of an exclusively borrowed slice that is taken to be
/// sorted already: what the view holds in the end is what the slice holds.
pub fn from_mut_slice_unchecked<'a, T, C: Comparator<T>>(slice: &'a mut [T]) -> (r: SortedSliceMut<
    'a,
    T,
    C,
>)
    ensures
        r@ == old(slice)@,
        final(slice)@ == final(r.slice)@,
{
    SortedSliceMut { slice, comparator: PhantomData }
}

/// An owned, heap-allocated sequence of fixed length whose elements are in
/// the order of `C`.
pub struct BoxedSortedSlice<T, C: Comparator<T> = OrdComparator> {
    slice: Box<[T]>,
    comparator: PhantomData<C>,
}

impl<T, C: Comparator<T>> View for BoxedSortedSlice<T, C> {
    type V = Seq<T>;

    closed spec fn view(&self) -> Seq<T> {
        self.slice@
    }
}

impl<T, C: Comparator<T>> BoxedSortedSlice<T, C> {
    /// The elements are in the order of `C`.
    pub open spec fn wf(&self) -> bool {
        sorted_by::<T, C>(self@)
    }

    /// The sorted view of the elements.
    pub fn as_sorted_slice(&self) -> (r: SortedSlice<'_, T, C>)
        ensures
            r@ == self@,
            self.wf() ==> r.wf(),
    {
        from_slice_unchecked(&*self.slice)
    }

    /// The elements as a plain boxed slice, in sorted order.
    pub fn into_boxed_slice(self) -> (r: Box<[T]>)
        ensures
            r@ == self@,
    {
        self.slice
    }
}

/// The owned sorted sequence of a boxed slice that is taken to be sorted
/// already.
pub fn from_boxed_slice_unchecked<T, C: Comparator<T>>(slice: Box<[T]>) -> (r: BoxedSortedSlice<
    T,
    C,
>)
    ensures
        r@ == slice@,
{
    BoxedSortedSlice { slice, comparator: PhantomData }
}

/// Sorts the boxed slice in place, keeping the order of equal elements, and
/// gives the owned sorted sequence of it.
pub fn sort_boxed_slice<T, C: Comparator<T>>(slice: Box<[T]>) -> (r: BoxedSortedSlice<T, C>)
    requires
        total_order::<T, C>(),
    ensures
        r.wf(),
        sorted_from::<T, C>(slice@, r@),
        stable_from::<T, C>(slice@, r@),
{
    let mut slice = slice;
    sort_stable::<T, C>(&mut *slice);
    from_boxed_slice_unchecked(slice)
}

/// Calls `<[T]>::sort_by` of the standard library with the comparison of
/// `C`.
///
/// Claims what its documentation says of a comparison that is a total
/// order: afterwards the slice holds the same elements in ascending order,
/// and elements that compare equal have kept their order.
#[verifier::external_body]
pub(crate) fn sort_stable<T, C: Comparator<T>>(slice: &mut [T])
    requires
        total_order::<T, C>(),
    ensures
        (sorted_from::<T, C>(old(slice)@, final(slice)@)),
        (stable_from::<T, C>(old(slice)@, final(slice)@)),
{
    slice.sort_by(C::compare)
}

/// Calls `<[T]>::sort_unstable_by` of the standard library with the
/// comparison of `C`.
///
/// Claims what its documentation says of a comparison that is a total
/// order: afterwards the slice holds the same elements in ascending order.
#[verifier::external_body]
pub(crate) fn sort_unstable<T, C: Comparator<T>>(slice: &mut [T])
    requires
        total_order::<T, C>(),
    ensures
        (sorted_from::<T, C>(old(slice)@, final(slice)@)),
{
    slice.sort_unstable_by(C::compare)
}

/// Sorts `slice` in place, keeping the order of equal elements, and gives
/// the writable sorted view of it.
pub fn sort_mut_slice<'a, T, C: Comparator<T>>(slice: &'a mut [T]) -> (r: SortedSliceMut<'a, T, C>)
    requires
        total_order::<T, C>(),
    ensures
        r.wf(),
        sorted_from::<T, C>(old(slice)@, r@),
        stable_from::<T, C>(old(slice)@, r@),
        final(slice)@ == final(r.slice)@,
{
    sort_stable::<T, C>(slice);
    from_mut_slice_unchecked(slice)
}

/// Sorts `slice` in place, in no particular order among equal elements, and
/// gives the writable sorted view of it.
pub fn sort_mut_slice_unstable<'a, T, C: Comparator<T>>(slice: &'a mut [T]) -> (r: SortedSliceMut<
    'a,
    T,
    C,
>)
    requires
        total_order::<T, C>(),
    ensures
        r.wf(),
        sorted_from::<T, C>(old(slice)@, r@),
        final(slice)@ == final(r.slice)@,
{
    sort_unstable::<T, C>(slice);
    from_mut_slice_unchecked(slice)
}

} // verus!
