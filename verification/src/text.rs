//! What the library relies on from `str` beyond what vstd states.

use vstd::prelude::*;

verus! {

/// `str`'s `PartialEq`: two strings are equal when they hold the same
/// characters in the same order.
#[verifier::external_body]
pub(crate) fn str_eq(a: &str, b: &str) -> (same: bool)
    ensures
        same == (a@ == b@),
{
    a == b
}

} // verus!
