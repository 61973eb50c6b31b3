//! What the compact radio tells its tuner.

use vstd::prelude::*;

use crate::compact::control_signal::CtrlSignal;
use crate::source::Command;

verus! {

/// What the radio is set to before it streams.
pub open spec fn setup_commands(sample_rate: u32, center_freq: u32, bandwidth: u32) -> Seq<Command> {
    seq![
        Command::SetCenterFreq(center_freq),
        Command::SetBandwidth(bandwidth),
        Command::SetSampleRate(sample_rate),
        Command::EnableAgc,
        Command::ResetBuffer,
    ]
}

/// What to set on a freshly opened device, in order.
pub fn setup(sample_rate: u32, center_freq: u32, bandwidth: u32) -> (plan: Vec<Command>)
    ensures
        plan@ == setup_commands(sample_rate, center_freq, bandwidth),
{
    let mut plan: Vec<Command> = Vec::new();
    plan.push(Command::SetCenterFreq(center_freq));
    plan.push(Command::SetBandwidth(bandwidth));
    plan.push(Command::SetSampleRate(sample_rate));
    plan.push(Command::EnableAgc);
    plan.push(Command::ResetBuffer);
    plan
}

/// A gain whose tenths fit the driver's argument.
pub open spec fn acceptable(sig: CtrlSignal) -> bool {
    sig matches CtrlSignal::Gain(db) ==> db * 10 <= i32::MAX
}

/// What the device is told in answer to a signal.
pub open spec fn command_for(sig: CtrlSignal) -> Command {
    match sig {
        CtrlSignal::CenterHz(hz) => Command::SetCenterFreq(hz),
        CtrlSignal::Bandwidth(hz) => Command::SetBandwidth(hz),
        CtrlSignal::Gain(db) => Command::SetTunerGain((db * 10) as i32),
        CtrlSignal::Ppm(ppm) => Command::SetPpm(ppm as i32),
        CtrlSignal::Quit => Command::CancelAsyncRead,
    }
}

/// Act on one control signal: what to tell the device.
pub fn handle(sig: CtrlSignal) -> (c: Command)
    requires
        acceptable(sig),
    ensures
        c == command_for(sig),
{
    match sig {
        CtrlSignal::CenterHz(hz) => Command::SetCenterFreq(hz),
        CtrlSignal::Bandwidth(hz) => Command::SetBandwidth(hz),
        CtrlSignal::Gain(db) => Command::SetTunerGain(db as i32 * 10),
        CtrlSignal::Ppm(ppm) => Command::SetPpm(
            #[verifier::truncate]
            (ppm as i32),
        ),
        CtrlSignal::Quit => Command::CancelAsyncRead,
    }
}

} // verus!
