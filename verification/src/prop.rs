//! The propagation picture's choice of view.

use vstd::prelude::*;

verus! {

/// Which propagation picture to draw.
#[derive(Debug, Clone, Copy, PartialEq, Eq, Structural)]
pub enum PropMode {
    /// One band, through the blue → green → yellow → red ramp.
    PerBand,
    /// Every selected band at once, one hue each, summed. The view that
    /// answers "what are conditions like" without being configured first.
    AllBands,
}

impl Default for PropMode {
    /// Every band at once, until the operator asks for one.
    fn default() -> (m: PropMode)
        ensures
            m == PropMode::AllBands,
    {
        PropMode::AllBands
    }
}

} // verus!
