//! Command-line options of the compiler front end.
use vstd::prelude::*;

verus! {

/// The options: an optional input file name and an optional output name.
pub struct Cli {
    pub file_name: Option<String>,
    pub output: Option<String>,
}

/// The sum of `left` and `right`.
pub fn add(left: usize, right: usize) -> (r: usize)
    requires
        left + right <= usize::MAX,
    ensures
        r == left + right,
{
    left + right
}

} // verus!
