//! Viewing a stored element as the narrower value that a lookup compares.

use vstd::prelude::*;

verus! {

/// A stored value that can be looked at as a `U` at no cost, so that a
/// lookup can be given a `U` instead of a whole element.
pub trait WeakBorrow<U> {
    /// The `U` that this value is seen as. An implementation states which
    /// one it is.
    open spec fn weak_view(&self) -> U {
        arbitrary()
    }

    fn weak_borrow(&self) -> (r: &U)
        ensures
            *r == self.weak_view(),
    ;
}

/// Every value can be looked at as itself.
impl<T> WeakBorrow<T> for T {
    open spec fn weak_view(&self) -> T {
        *self
    }

    fn weak_borrow(&self) -> (r: &T) {
        self
    }
}

} // verus!
