//! What the errors of the device say.

use vstd::prelude::*;

use crate::exceptions::CustomError;
use crate::text::{decimal, signed_decimal};

verus! {

/// Each error names what failed and what was asked for; an error that is not the device's
/// says nothing.
pub proof fn errors_say_what_failed(e: CustomError, s: String)
    requires
        call_ensures(CustomError::message, (e,), s),
    ensures
        e matches CustomError::RtlOpenDevice(id) ==> s@ == "RTL-SDR: Failed to open device "@
            + decimal(id as nat),
        e matches CustomError::RtlSetFreq(hz) ==> s@ == "RTL-SDR: Failed to set center freq "@
            + decimal(hz as nat),
        e matches CustomError::RtlSetBandwidth(hz) ==> s@ == "RTL-SDR: Failed to set bandwidth "@
            + decimal(hz as nat),
        e matches CustomError::RtlSetSampleRate(hz) ==> s@
            == "RTL-SDR: Failed to set sample rate "@ + decimal(hz as nat),
        e matches CustomError::RtlSetGain(db) ==> s@ == "RTL-SDR: Failed to set tuner gain "@
            + signed_decimal(db as int) + " dB"@,
        e matches CustomError::RtlSetPpm(ppm) ==> s@ == "RTL-SDR: Failed to set ppm correction "@
            + signed_decimal(ppm as int),
        e is RtlEnableAgc ==> s@ == "RTL-SDR: Failed to enable AGC"@,
        e is RtlDisableAgc ==> s@ == "RTL-SDR: Failed to disable AGC"@,
        e is RtlResetBuffer ==> s@ == "RTL-SDR: Failed to reset buffer"@,
        e is SlowConsumer || e is SlowProducer || e is MismatchInputLength || e is InvalidIndex
            ==> s@.len() == 0,
{
    reveal_strlit("");
}

} // verus!
