//! What the compact UI tells the thread that owns the dongle.

use vstd::prelude::*;

verus! {

/// Sent from the UI thread to the controller thread.
#[derive(Clone, Copy, Debug, PartialEq, Eq, Structural)]
pub enum CtrlSignal {
    CenterHz(u32),
    Bandwidth(u32),
    /// Whole dB. The controller converts to the tenths the driver wants.
    Gain(u32),
    Ppm(u32),
    Quit,
}

} // verus!
