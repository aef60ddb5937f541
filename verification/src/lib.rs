//! Verified core of the SDRoxide user interface: the text the panels print,
//! the weather-fax chart assembly and gallery bookkeeping, the SSTV banner
//! templates and message slots, the HFDL plot table, the solar-system view's
//! target encoding, picker and search, the antenna-relay read-out, the
//! propagation picture's modes, and the voice keyer's interlock.

use vstd::prelude::*;

pub mod text;
pub mod clock;
pub mod sstv;
pub mod wefax;
pub mod solar;
pub mod hfdl;
pub mod relay;
pub mod prop;
pub mod voice;

verus! {

} // verus!
