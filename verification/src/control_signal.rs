//! What the UI thread tells the thread that owns the dongle.

use vstd::prelude::*;

verus! {

/// Sent from the UI thread to the controller thread. Only settings the device
/// has to be told about travel this way; anything the DSP applies itself
/// (volume, mute, de-emphasis) is read off the shared state.
#[derive(Clone, Copy, Debug, PartialEq, Eq, Structural)]
pub enum CtrlSignal {
    /// The centre of the sampled span and of the waterfall, not the channel
    /// being demodulated.
    CenterHz(u32),
    /// The channel the frequency translator brings down to DC, absolute. The
    /// device is not touched for this.
    TunedHz(u32),
    /// Channel bandwidth, not the tuner's IF filter: the controller widens it.
    Bandwidth(u32),
    /// Tenths of a dB. Implies manual gain mode.
    GainTenths(i32),
    /// Hand the digital AGC control of the level. Leaving AGC is
    /// [`GainTenths`](CtrlSignal::GainTenths), which restores a known gain.
    AgcOn,
    /// Signed: most dongles need a negative correction.
    Ppm(i32),
    Quit,
}

} // verus!
