//! Numeric error codes as reported by the operating system.

use vstd::prelude::*;

verus! {

/// An error that the system reported as a negative number.
#[derive(Debug, Clone, Copy, PartialEq, Eq, Structural)]
pub struct NumericError {
    pub number: isize,
}

} // verus!
