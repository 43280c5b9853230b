//! Exact integer measures. Every length of a Word document is stored in one of
//! these units, and none of them is ever rounded here.

use vstd::prelude::*;

verus! {

/// A twentieth of a point. Page sizes, margins, spacing and indents use it.
#[derive(Debug, Clone, Copy, PartialEq, Eq, Structural)]
pub struct Twips(pub i32);

/// Half a point. Font sizes use it.
#[derive(Debug, Clone, Copy, PartialEq, Eq, Structural)]
pub struct HalfPoint(pub u32);

/// An English Metric Unit, 1/12700 of a point. Drawings use it.
#[derive(Debug, Clone, Copy, PartialEq, Eq, Structural)]
pub struct Emu(pub i64);

/// A fine text measure, 1/20000 of a point. Font sizes and baseline shifts
/// that are scaled by whole percentages stay exact in it.
#[derive(Debug, Clone, Copy, PartialEq, Eq, Structural)]
pub struct TextUnit(pub i64);

/// How many EMUs make one twip.
pub const EMU_PER_TWIP: i64 = 635;

/// How many text units make half a point.
pub const TEXT_UNITS_PER_HALF_POINT: i64 = 10000;

impl HalfPoint {
    /// The same length in text units.
    pub open spec fn spec_text_units(self) -> TextUnit {
        TextUnit((self.0 * TEXT_UNITS_PER_HALF_POINT) as i64)
    }

    /// The same length in text units.
    pub fn text_units(self) -> (units: TextUnit)
        ensures
            units == self.spec_text_units(),
            units.0 == self.0 * TEXT_UNITS_PER_HALF_POINT,
    {
        TextUnit(self.0 as i64 * TEXT_UNITS_PER_HALF_POINT)
    }
}

} // verus!
