//! Comparison of identifiers.
use vstd::prelude::*;

verus! {

/// Whether an owned string and a string slice hold the same characters.
pub fn same_text(a: &String, b: &str) -> (r: bool)
    ensures
        r == (a@ == b@),
{
    let t = b.to_owned();
    *a == t
}

} // verus!
