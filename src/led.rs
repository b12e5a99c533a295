//! On-board LEDs, numbered 0 to 7.

use vstd::prelude::*;

verus! {

/// The LED with index `I`; "high" has it on and "low" has it off.
pub struct LED<const I: u8>(());

impl<const I: u8> LED<I> {
    /// Claims LED `I`; only LEDs 0 to 7 exist.
    pub fn new() -> Self
        requires
            I < 8,
    {
        LED(())
    }

    /// The number of this LED.
    pub fn number(&self) -> (r: u8)
        ensures
            r == I,
    {
        I
    }
}

} // verus!
