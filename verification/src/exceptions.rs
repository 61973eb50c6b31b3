//! Everything that can go wrong between the dongle and the speaker.

pub mod laws;

use vstd::prelude::*;
use vstd::string::StringExecFns;

use crate::text::{decimal, push_decimal, push_signed, signed_decimal};

verus! {

/// Everything that can go wrong between the dongle and the speaker.
#[derive(Clone, Copy, Debug, PartialEq, Eq, Structural)]
pub enum CustomError {
    /// The input's length is not the buffer's.
    MismatchInputLength,
    InvalidIndex,
    /// The ring is empty: nothing new to read.
    SlowProducer,
    /// A reader is too far behind, or was lapped until its retries ran out.
    SlowConsumer,
    Speaker,
    Internal,
    IQStreamNotEven,
    RtlOpenDevice(u32),
    RtlSetFreq(u32),
    RtlSetBandwidth(u32),
    RtlSetSampleRate(u32),
    /// In tenths of a dB.
    RtlSetGain(i32),
    RtlSetPpm(i32),
    RtlEnableAgc,
    RtlDisableAgc,
    RtlResetBuffer,
}

impl CustomError {
    pub open spec fn spec_message(self) -> Seq<char> {
        match self {
            CustomError::RtlOpenDevice(id) => "RTL-SDR: Failed to open device "@ + decimal(
                id as nat,
            ),
            CustomError::RtlSetFreq(hz) => "RTL-SDR: Failed to set center freq "@ + decimal(
                hz as nat,
            ),
            CustomError::RtlSetBandwidth(hz) => "RTL-SDR: Failed to set bandwidth "@ + decimal(
                hz as nat,
            ),
            CustomError::RtlSetSampleRate(rate) => "RTL-SDR: Failed to set sample rate "@
                + decimal(rate as nat),
            CustomError::RtlSetGain(db) => "RTL-SDR: Failed to set tuner gain "@
                + signed_decimal(db as int) + " dB"@,
            CustomError::RtlSetPpm(ppm) => "RTL-SDR: Failed to set ppm correction "@
                + signed_decimal(ppm as int),
            CustomError::RtlEnableAgc => "RTL-SDR: Failed to enable AGC"@,
            CustomError::RtlDisableAgc => "RTL-SDR: Failed to disable AGC"@,
            CustomError::RtlResetBuffer => "RTL-SDR: Failed to reset buffer"@,
            _ => ""@,
        }
    }

    /// The error in words, where the device is to blame; nothing for the others.
    pub fn message(self) -> (s: String)
        ensures
            s@ == self.spec_message(),
    {
        match self {
            CustomError::RtlOpenDevice(id) => {
                let mut s = String::from_str("RTL-SDR: Failed to open device ");
                push_decimal(&mut s, id as u64);
                s
            },
            CustomError::RtlSetFreq(hz) => {
                let mut s = String::from_str("RTL-SDR: Failed to set center freq ");
                push_decimal(&mut s, hz as u64);
                s
            },
            CustomError::RtlSetBandwidth(hz) => {
                let mut s = String::from_str("RTL-SDR: Failed to set bandwidth ");
                push_decimal(&mut s, hz as u64);
                s
            },
            CustomError::RtlSetSampleRate(rate) => {
                let mut s = String::from_str("RTL-SDR: Failed to set sample rate ");
                push_decimal(&mut s, rate as u64);
                s
            },
            CustomError::RtlSetGain(db) => {
                let mut s = String::from_str("RTL-SDR: Failed to set tuner gain ");
                push_signed(&mut s, db as i64);
                s.append(" dB");
                s
            },
            CustomError::RtlSetPpm(ppm) => {
                let mut s = String::from_str("RTL-SDR: Failed to set ppm correction ");
                push_signed(&mut s, ppm as i64);
                s
            },
            CustomError::RtlEnableAgc => String::from_str("RTL-SDR: Failed to enable AGC"),
            CustomError::RtlDisableAgc => String::from_str("RTL-SDR: Failed to disable AGC"),
            CustomError::RtlResetBuffer => String::from_str("RTL-SDR: Failed to reset buffer"),
            _ => String::from_str(""),
        }
    }
}

} // verus!
