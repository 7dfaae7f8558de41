//! Checks on the content of an edited file before it replaces the file.

use vstd::prelude::*;

use crate::error::Result;

verus! {

/// Validator for files that don't have to do any checks. It is
/// garanteed to return [`Ok`].
pub fn infallible(_input: &str) -> (r: Result)
    ensures
        r is Ok,
{
    Ok(())
}

} // verus!
