//! Colours.

use vstd::prelude::*;

verus! {

/// A colour as red, green and blue intensities.
#[derive(PartialEq, Eq, Structural, Copy, Clone, Debug)]
pub struct Rgb {
    pub r: u8,
    pub g: u8,
    pub b: u8,
}

impl Rgb {
    /// The three intensities as `(r, g, b)`.
    pub fn to_tuple(&self) -> (t: (u8, u8, u8))
        ensures
            t == (self.r, self.g, self.b),
    {
        (self.r, self.g, self.b)
    }
}

} // verus!
