use vstd::prelude::*;
use vstd::std_specs::cmp::PartialEqSpec;

use crate::errors::Error;

verus! {

/// Whether `actual` is what `expected` says: an equal value, or an error of the same kind.
pub open spec fn results_agree<T: PartialEq>(expected: &Result<T, Error>, actual: &Result<T, Error>) -> bool {
    match (expected, actual) {
        (Ok(e), Ok(a)) => e.eq_spec(a),
        (Err(e), Err(a)) => e == a,
        _ => false,
    }
}

/// returns true when `actual` is what `expected` says: both hold equal values, or both hold
/// the same error
pub fn assert_result<T: PartialEq>(expected: &Result<T, Error>, actual: &Result<T, Error>) -> (r:
    bool)
    ensures
        T::obeys_eq_spec() ==> r == results_agree(expected, actual),
{
    match (expected, actual) {
        (Ok(e), Ok(a)) => e == a,
        (Err(e), Err(a)) => *e == *a,
        _ => false,
    }
}

} // verus!
