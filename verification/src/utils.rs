//! Binary search for the band of elements that a probe holds equal to its
//! target.

use std::cmp::Ordering;
use vstd::prelude::*;

verus! {

/// The spec function `ans` bounds the probe `f`: whatever `f` returns on a
/// value is what `ans` says of it. Nothing is said of whether `f` returns.
pub open spec fn bounds<T, F: Fn(&T) -> Ordering>(f: F, ans: spec_fn(T) -> Ordering) -> bool {
    forall|x: T, o: Ordering| call_ensures(f, (&x,), o) ==> o == ans(x)
}

/// The answer owed at position `j` of a sequence whose elements before `lo`
/// lie below the target, those from `hi` on above it, and the rest on it.
pub open spec fn band(j: int, lo: int, hi: int) -> Ordering {
    if j < lo {
        Ordering::Less
    } else if j < hi {
        Ordering::Equal
    } else {
        Ordering::Greater
    }
}

/// The probe `f` can be called on every element of `s`.
pub open spec fn probes_all<T, F: Fn(&T) -> Ordering>(s: Seq<T>, f: F) -> bool {
    forall|j: int| 0 <= j < s.len() ==> call_requires(f, (&#[trigger] s[j],))
}

/// `s` is laid out along `ans` with the equal band at `lo..hi`: `ans` says
/// `Less` of the elements before `lo`, `Equal` of those at `lo..hi`, and
/// `Greater` of those from `hi` on.
pub open spec fn laid_out<T>(s: Seq<T>, ans: spec_fn(T) -> Ordering, lo: int, hi: int) -> bool {
    &&& 0 <= lo <= hi <= s.len()
    &&& forall|j: int| 0 <= j < s.len() ==> ans(#[trigger] s[j]) == band(j, lo, hi)
}

/// `s` is sorted consistently with the probe `f`: some spec function bounds
/// `f`, and `s` is laid out along it.
pub open spec fn partitioned<T, F: Fn(&T) -> Ordering>(s: Seq<T>, f: F) -> bool {
    exists|ans: spec_fn(T) -> Ordering, lo: int, hi: int|
        bounds(f, ans) && #[trigger] laid_out(s, ans, lo, hi)
}

/// Where a property holds of the elements at `lo..hi` and of no other,
/// those are all the elements that have it: as many as the filter finds.
pub proof fn lemma_band_is_filter<T>(s: Seq<T>, p: spec_fn(T) -> bool, lo: int, hi: int)
    requires
        0 <= lo <= hi <= s.len(),
        forall|j: int| 0 <= j < s.len() ==> (p(#[trigger] s[j]) <==> lo <= j < hi),
    ensures
        s.filter(p) == s.subrange(lo, hi),
    decreases s.len(),
{
    reveal(Seq::filter);
    if s.len() == 0 {
        assert(s.filter(p) =~= s.subrange(lo, hi));
    } else {
        let front = s.drop_last();
        let n: int = s.len() - 1;
        let front_lo = if lo < n { lo } else { n };
        let front_hi = if hi < n { hi } else { n };
        assert forall|j: int| 0 <= j < front.len() implies (p(#[trigger] front[j]) <==> front_lo
            <= j < front_hi) by {
            assert(front[j] == s[j]);
        }
        lemma_band_is_filter(front, p, front_lo, front_hi);
        assert(p(s[n]) <==> lo <= n < hi);
        if p(s.last()) {
            assert(front.subrange(front_lo, front_hi).push(s.last()) =~= s.subrange(lo, hi));
        } else {
            assert(front.subrange(front_lo, front_hi) =~= s.subrange(lo, hi));
        }
    }
}

/// An index as a position in a sequence.
pub open spec fn pos(i: usize) -> int {
    i as int
}

/// Calls `<[T]>::binary_search_by` of the standard library.
///
/// Claims what its documentation says of a slice that is sorted
/// consistently with the probe, for every spec function that bounds the
/// probe and every layout of the slice along it: `Ok` holds an index inside
/// the equal band; `Err` comes only where the band is empty, and holds its
/// position, at which an equal element could be inserted. Nothing is
/// claimed of what the probe returns on an element.
#[verifier::external_body]
pub(crate) fn search_by<T, F: Fn(&T) -> Ordering>(slice: &[T], f: F) -> (r: Result<usize, usize>)
    requires
        probes_all(slice@, f),
        partitioned(slice@, f),
    ensures
        forall|ans: spec_fn(T) -> Ordering, lo: int, hi: int|
            bounds(f, ans) && #[trigger] laid_out(slice@, ans, lo, hi) ==> match r {
                Ok(i) => lo <= i < hi,
                Err(i) => i == lo && lo == hi,
            },
{
    slice.binary_search_by(f)
}

/// A probe's answer pushed off `Equal`, toward the left edge of the band.
pub open spec fn toward_left(o: Ordering) -> Ordering {
    match o {
        Ordering::Less => Ordering::Less,
        Ordering::Equal => Ordering::Greater,
        Ordering::Greater => Ordering::Greater,
    }
}

/// A probe's answer pushed off `Equal`, toward the right edge of the band.
pub open spec fn toward_right(o: Ordering) -> Ordering {
    match o {
        Ordering::Less => Ordering::Less,
        Ordering::Equal => Ordering::Less,
        Ordering::Greater => Ordering::Greater,
    }
}

/// A sequence without elements has its empty band at the start.
pub proof fn lemma_range_of_empty<T>(s: Seq<T>, ans: spec_fn(T) -> Ordering, lo: int, hi: int)
    requires
        s.len() == 0,
        laid_out(s, ans, lo, hi),
    ensures
        lo == 0,
        hi == 0,
{
}

/// Where the target lies below every element, the band is empty and lies
/// at the start.
pub proof fn lemma_range_below_all<T>(s: Seq<T>, ans: spec_fn(T) -> Ordering, lo: int, hi: int)
    requires
        laid_out(s, ans, lo, hi),
        forall|j: int| 0 <= j < s.len() ==> ans(#[trigger] s[j]) == Ordering::Greater,
    ensures
        lo == 0,
        hi == 0,
{
    if hi > 0 {
        assert(ans(s[0]) == band(0, lo, hi));
    }
}

/// Where the target lies above every element, the band is empty and lies
/// at the end.
pub proof fn lemma_range_above_all<T>(s: Seq<T>, ans: spec_fn(T) -> Ordering, lo: int, hi: int)
    requires
        laid_out(s, ans, lo, hi),
        forall|j: int| 0 <= j < s.len() ==> ans(#[trigger] s[j]) == Ordering::Less,
    ensures
        lo == s.len(),
        hi == s.len(),
{
    if lo < s.len() {
        let n: int = s.len() - 1;
        assert(ans(s[n]) == band(n, lo, hi));
    }
}

/// Where every element is on the target, the band is the whole sequence.
pub proof fn lemma_range_of_all_equal<T>(s: Seq<T>, ans: spec_fn(T) -> Ordering, lo: int, hi: int)
    requires
        laid_out(s, ans, lo, hi),
        forall|j: int| 0 <= j < s.len() ==> ans(#[trigger] s[j]) == Ordering::Equal,
    ensures
        lo == 0,
        hi == s.len(),
{
    if s.len() > 0 {
        let n: int = s.len() - 1;
        assert(ans(s[0]) == band(0, lo, hi));
        assert(ans(s[n]) == band(n, lo, hi));
    }
}

/// The left edge of the band of elements that `f` holds equal to its
/// target, whatever spec function bounds `f`: one binary search with
/// `Equal` taken for `Greater`.
pub fn lower_bound<T, F>(slice: &[T], f: &F) -> (low: usize) where F: Fn(&T) -> Ordering
    requires
        probes_all(slice@, *f),
        partitioned(slice@, *f),
    ensures
        forall|ans: spec_fn(T) -> Ordering, lo: int, hi: int|
            bounds(*f, ans) && #[trigger] laid_out(slice@, ans, lo, hi) ==> low == lo,
{
    let ghost s = slice@;
    let left = |it: &T| -> (o: Ordering)
        requires
            call_requires(f, (it,)),
        ensures
            exists|r: Ordering| #[trigger] call_ensures(f, (it,), r) && o == toward_left(r),
        {
            let r = f(it);
            match r {
                Ordering::Equal => Ordering::Greater,
                _ => r,
            }
        };
    proof {
        let (ans, lo, hi) = choose|ans: spec_fn(T) -> Ordering, lo: int, hi: int|
            bounds(*f, ans) && #[trigger] laid_out(s, ans, lo, hi);
        let pushed = |x: T| toward_left(ans(x));
        assert(bounds(left, pushed));
        assert(laid_out(s, pushed, lo, lo));
    }
    let low = match search_by(slice, left) {
        Ok(i) => i,
        Err(i) => i,
    };
    proof {
        assert forall|ans: spec_fn(T) -> Ordering, lo: int, hi: int|
            bounds(*f, ans) && #[trigger] laid_out(s, ans, lo, hi) implies low == lo by {
            let pushed = |x: T| toward_left(ans(x));
            assert(bounds(left, pushed));
            assert(laid_out(s, pushed, lo, lo));
        }
    }
    low
}

/// The right edge of the band of elements that `f` holds equal to its
/// target, whatever spec function bounds `f`: one binary search with
/// `Equal` taken for `Less`.
pub fn upper_bound<T, F>(slice: &[T], f: &F) -> (high: usize) where F: Fn(&T) -> Ordering
    requires
        probes_all(slice@, *f),
        partitioned(slice@, *f),
    ensures
        forall|ans: spec_fn(T) -> Ordering, lo: int, hi: int|
            bounds(*f, ans) && #[trigger] laid_out(slice@, ans, lo, hi) ==> high == hi,
{
    let ghost s = slice@;
    let right = |it: &T| -> (o: Ordering)
        requires
            call_requires(f, (it,)),
        ensures
            exists|r: Ordering| #[trigger] call_ensures(f, (it,), r) && o == toward_right(r),
        {
            let r = f(it);
            match r {
                Ordering::Equal => Ordering::Less,
                _ => r,
            }
        };
    proof {
        let (ans, lo, hi) = choose|ans: spec_fn(T) -> Ordering, lo: int, hi: int|
            bounds(*f, ans) && #[trigger] laid_out(s, ans, lo, hi);
        let pushed = |x: T| toward_right(ans(x));
        assert(bounds(right, pushed));
        assert(laid_out(s, pushed, hi, hi));
    }
    let high = match search_by(slice, right) {
        Ok(i) => i,
        Err(i) => i,
    };
    proof {
        assert forall|ans: spec_fn(T) -> Ordering, lo: int, hi: int|
            bounds(*f, ans) && #[trigger] laid_out(s, ans, lo, hi) implies high == hi by {
            let pushed = |x: T| toward_right(ans(x));
            assert(bounds(right, pushed));
            assert(laid_out(s, pushed, hi, hi));
        }
    }
    high
}

/// The bounds `(low, high)` of the band of elements that `f` holds equal to
/// its target, found by two binary searches: for every spec function that
/// bounds `f` and every layout of the slice along it, the bounds of the
/// equal band.
///
/// The band is empty exactly when no element is held equal, and then both
/// bounds are the position at which such an element belongs.
pub fn binary_search_range<T, F>(slice: &[T], f: F) -> (r: (usize, usize)) where
    F: Fn(&T) -> Ordering,

    requires
        probes_all(slice@, f),
        partitioned(slice@, f),
    ensures
        r.0 <= r.1 <= slice@.len(),
        forall|ans: spec_fn(T) -> Ordering, lo: int, hi: int|
            bounds(f, ans) && #[trigger] laid_out(slice@, ans, lo, hi) ==> r.0 == lo && r.1 == hi,
{
    let low = lower_bound(slice, &f);
    let high = upper_bound(slice, &f);
    (low, high)
}

} // verus!
