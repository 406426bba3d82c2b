//! The ordering strategy that a sorted container is tagged with.

use std::cmp::Ordering;
use vstd::prelude::*;
use vstd::std_specs::cmp::OrdSpec;

verus! {

/// A strategy that orders two values of type `T`.
///
/// `order` is the mathematical order; `compare` computes it whenever the
/// strategy `obeys` its own description.
pub trait Comparator<T> {
    /// Whether `compare` always returns what `order` says. An
    /// implementation that does not say so promises nothing.
    open spec fn obeys() -> bool {
        false
    }

    /// The position of `x` relative to `y`.
    open spec fn order(x: &T, y: &T) -> Ordering {
        Ordering::Equal
    }

    fn compare(x: &T, y: &T) -> (o: Ordering)
        ensures
            Self::obeys() ==> o == Self::order(x, y),
    ;
}

/// The comparator that follows the natural order of the element type.
pub struct OrdComparator;

impl<T: Ord> Comparator<T> for OrdComparator {
    open spec fn obeys() -> bool {
        T::obeys_cmp_spec()
    }

    open spec fn order(x: &T, y: &T) -> Ordering {
        x.cmp_spec(y)
    }

    fn compare(x: &T, y: &T) -> (o: Ordering) {
        x.cmp(y)
    }
}

/// `x` sorts no later than `y` under `C`.
pub open spec fn le<T, C: Comparator<T>>(x: T, y: T) -> bool {
    C::order(&x, &y) != Ordering::Greater
}

/// `C` computes a total order on `T`: comparing is faithful to `order`,
/// swapping the arguments reverses the answer, and "no later than" is
/// transitive.
pub open spec fn total_order<T, C: Comparator<T>>() -> bool {
    &&& C::obeys()
    &&& forall|x: T, y: T| #[trigger]
        C::order(&x, &y) == reversed(C::order(&y, &x))
    &&& forall|x: T, y: T, z: T| #[trigger]
        le::<T, C>(x, y) && #[trigger] le::<T, C>(y, z) ==> le::<T, C>(x, z)
}

/// The answer to the same comparison with its arguments swapped.
pub open spec fn reversed(o: Ordering) -> Ordering {
    match o {
        Ordering::Less => Ordering::Greater,
        Ordering::Equal => Ordering::Equal,
        Ordering::Greater => Ordering::Less,
    }
}

/// `s` is non-decreasing under `C`: no element sorts after a later one.
pub open spec fn sorted_by<T, C: Comparator<T>>(s: Seq<T>) -> bool {
    forall|i: int, j: int| 0 <= i < j < s.len() ==> le::<T, C>(#[trigger] s[i], #[trigger] s[j])
}

/// `after` is `before` put into the order of `C`: it is sorted and holds
/// the same elements, each as often as `before` does.
pub open spec fn sorted_from<T, C: Comparator<T>>(before: Seq<T>, after: Seq<T>) -> bool {
    &&& sorted_by::<T, C>(after)
    &&& after.len() == before.len()
    &&& after.to_multiset() == before.to_multiset()
}

/// `after` holds the elements of `before`, the one at position `k` taken
/// from position `from[k]`, and no position taken twice.
pub open spec fn rearranged<T>(before: Seq<T>, after: Seq<T>, from: Seq<int>) -> bool {
    &&& from.len() == before.len()
    &&& after.len() == before.len()
    &&& forall|k: int|
        0 <= k < from.len() ==> 0 <= #[trigger] from[k] < before.len() && after[k]
            == before[from[k]]
    &&& forall|k: int, l: int|
        0 <= k < l < from.len() ==> #[trigger] from[k] != #[trigger] from[l]
}

/// `after` is a rearrangement of `before` in which elements that compare
/// equal under `C` have kept the order that they had in `before`.
pub open spec fn stable_from<T, C: Comparator<T>>(before: Seq<T>, after: Seq<T>) -> bool {
    exists|from: Seq<int>|
        {
            &&& #[trigger] rearranged(before, after, from)
            &&& forall|k: int, l: int|
                0 <= k < l < from.len() && C::order(&after[k], &after[l]) == Ordering::Equal
                    ==> #[trigger] from[k] < #[trigger] from[l]
        }
}

} // verus!
