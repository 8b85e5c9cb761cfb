//! Steps applied to the results of one section once all its patterns ran.
use vstd::prelude::*;

use crate::state::ParseResult;

verus! {

/// Returns the results unchanged.
pub fn identity(results: Vec<ParseResult>) -> (r: Vec<ParseResult>)
    ensures
        r == results,
{
    results
}

} // verus!
