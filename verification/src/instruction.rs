//! Drawing instructions for a line-drawing cursor.

use vstd::prelude::*;

verus! {

/// A decimal number: `mantissa` times ten to the power `exponent`, negated
/// where `positive` is false.
#[derive(Clone, Copy, Debug, PartialEq, Eq)]
pub struct Magnitude {
    pub positive: bool,
    pub mantissa: u64,
    pub exponent: i16,
}

impl Magnitude {
    /// The magnitude zero, which stands in for a null in a document.
    pub fn zero() -> (m: Self)
        ensures
            m == (Magnitude { positive: true, mantissa: 0, exponent: 0 }),
    {
        Magnitude { positive: true, mantissa: 0, exponent: 0 }
    }
}

/// One command for the cursor.
#[derive(Clone, Copy, Debug, PartialEq, Eq)]
pub enum Instruction {
    /// Move forward by a distance.
    Forward(Magnitude),
    /// Move back by a distance.
    Back(Magnitude),
    /// Turn left by an angle.
    Left(Magnitude),
    /// Turn right by an angle.
    Right(Magnitude),
    /// Save the cursor's position and heading.
    Push,
    /// Restore the position and heading saved last.
    Pop,
    /// Do nothing: what an instruction object without a key decodes to.
    Nop,
}

} // verus!
