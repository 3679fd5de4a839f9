//! Small utilities.

use vstd::prelude::*;
use core::cmp::Ordering;

verus! {

/// A wrapper that opts its payload out of ordering: every two values
/// compare as equal, so a containing type's derived lexicographic order
/// skips over this field entirely.
#[derive(Debug, Clone, Copy)]
pub struct UnOrd<T>(pub T);

impl<T> From<T> for UnOrd<T> {
    fn from(value: T) -> (r: UnOrd<T>) {
        UnOrd(value)
    }
}

impl<T> vstd::std_specs::convert::FromSpecImpl<T> for UnOrd<T> {
    open spec fn obeys_from_spec() -> bool {
        true
    }

    open spec fn from_spec(v: T) -> UnOrd<T> {
        UnOrd(v)
    }
}

impl<T> PartialEq for UnOrd<T> {
    fn eq(&self, _other: &Self) -> (r: bool) {
        true
    }
}

impl<T> Eq for UnOrd<T> {}

impl<T> vstd::std_specs::cmp::PartialEqSpecImpl for UnOrd<T> {
    open spec fn obeys_eq_spec() -> bool {
        true
    }

    open spec fn eq_spec(&self, _other: &Self) -> bool {
        true
    }
}

impl<T> PartialOrd for UnOrd<T> {
    fn partial_cmp(&self, _other: &Self) -> (r: Option<Ordering>) {
        Some(Ordering::Equal)
    }
}

impl<T> vstd::std_specs::cmp::PartialOrdSpecImpl for UnOrd<T> {
    open spec fn obeys_partial_cmp_spec() -> bool {
        true
    }

    open spec fn partial_cmp_spec(&self, _other: &Self) -> Option<Ordering> {
        Some(Ordering::Equal)
    }
}

} // verus!
