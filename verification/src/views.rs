//! The views of the elements of a sequence.
use vstd::prelude::*;

verus! {

/// A sequence of values as the sequence of their views.
pub open spec fn views<T: View>(values: Seq<T>) -> Seq<T::V> {
    Seq::new(values.len(), |i: int| values[i]@)
}

/// The view of an optional value.
pub open spec fn opt_view<T: View>(value: Option<T>) -> Option<T::V> {
    match value {
        Some(inner) => Some(inner@),
        None => None,
    }
}

/// Views leave nothing out and add nothing: each value has its view at its place.
pub proof fn every_value_has_its_view<T: View>(values: Seq<T>, value: T)
    ensures
        views(values).len() == values.len(),
        forall|i: int| 0 <= i < values.len() ==> #[trigger] views(values)[i] == values[i]@,
        opt_view(Some(value)) == Some(value@),
        opt_view(None::<T>) == None::<T::V>,
{
}

} // verus!
