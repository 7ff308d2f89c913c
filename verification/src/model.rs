//! The mathematical values that the contracts speak of.
//!
//! A type of this library that holds text has a view in which each `String`
//! is the sequence of its characters. The functions here carry that view
//! through the containers of the standard library.

use vstd::prelude::*;

verus! {

/// The views of the elements of a vector, in order.
pub open spec fn views<T: View>(v: Seq<T>) -> Seq<T::V> {
    Seq::new(v.len(), |i: int| v[i]@)
}

/// The view of an optional value.
pub open spec fn view_of<T: View>(value: Option<&T>) -> Option<T::V> {
    match value {
        Some(v) => Some(v@),
        None => None,
    }
}

/// The view of a result: that of the value or that of the error.
pub open spec fn result_view<T: View, E: View>(res: Result<T, E>) -> Result<T::V, E::V> {
    match res {
        Ok(v) => Ok(v@),
        Err(e) => Err(e@),
    }
}

} // verus!
