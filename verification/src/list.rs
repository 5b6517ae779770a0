//! Lists of things that have views.

use vstd::prelude::*;

verus! {

/// What `s` holds, each item by its view.
pub open spec fn views<T: View>(s: Seq<T>) -> Seq<T::V> {
    s.map_values(|x: T| x@)
}

} // verus!
