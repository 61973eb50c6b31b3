use ferrite::control_signal::CtrlSignal;
use ferrite::exceptions::CustomError;
use ferrite::source::{
    clamp_tuned, snap_gain, snap_gain_tenths, sort_gains, tuner_bandwidth, Command, Notice,
    Source, OFFSET_TUNING_HZ, TUNE_SPAN_HZ,
};

/// The R820T/R820T2, by far the most common tuner.
const R820T: [i32; 29] = [
    0, 9, 14, 27, 37, 77, 87, 125, 144, 157, 166, 197, 207, 229, 254, 280, 297, 328, 338, 364, 372,
    386, 402, 421, 434, 439, 445, 480, 496,
];
/// The FC0013: three clusters around -6, +7 and +19 dB, and a 19.7 dB ceiling.
const FC0013: [i32; 23] = [
    -99, -73, -65, -63, -60, -58, -54, 58, 61, 63, 65, 67, 68, 70, 71, 179, 181, 182, 184, 186,
    188, 191, 197,
];

#[test]
fn snaps_to_the_nearest_supported_value() {
    assert_eq!(snap_gain(&R820T, 40), 402, "40 dB is exact here");
    assert_eq!(snap_gain(&R820T, 41), 402, "41.0 -> 40.2, not 42.1");
    assert_eq!(snap_gain(&FC0013, 7), 70, "lands inside the middle cluster");
}

#[test]
fn clamps_rather_than_extrapolating() {
    assert_eq!(snap_gain(&R820T, 0), 0);
    assert_eq!(snap_gain(&R820T, 99), 496, "above max -> max");
    assert_eq!(snap_gain(&FC0013, 40), 197, "40 dB is above this tuner's ceiling");
    assert_eq!(snap_gain(&FC0013, 0), -54, "below the lowest positive -> -5.4");
}

#[test]
fn a_request_inside_a_gap_picks_the_nearer_cluster() {
    assert_eq!(snap_gain(&FC0013, 1), 58, "1 dB -> bottom of the middle cluster");
    assert_eq!(snap_gain(&FC0013, 12), 71, "12 dB -> top of the middle cluster");
    assert_eq!(snap_gain(&FC0013, 14), 179, "14 dB -> bottom of the high cluster");
}

#[test]
fn empty_table_falls_back_to_the_request() {
    assert_eq!(snap_gain(&[], 40), 400);
}

#[test]
fn ties_go_to_the_first_of_the_table() {
    assert_eq!(snap_gain_tenths(&[10, 20], 15), 10);
    assert_eq!(snap_gain_tenths(&[20, 10], 15), 20);
    assert_eq!(snap_gain_tenths(&[], -123), -123);
}

#[test]
fn the_filter_reaches_past_the_channel() {
    assert_eq!(tuner_bandwidth(300_000), 1_000_000);
    assert_eq!(tuner_bandwidth(0), 700_000);
    assert_eq!(tuner_bandwidth(200_001), 900_000);
}

#[test]
fn the_channel_stays_in_the_span() {
    assert_eq!(clamp_tuned(91_000_000, 91_350_000), 91_350_000);
    assert_eq!(clamp_tuned(91_000_000, 200_000_000), 91_000_000 + TUNE_SPAN_HZ);
    assert_eq!(clamp_tuned(91_000_000, 0), 91_000_000 - TUNE_SPAN_HZ);
    assert_eq!(clamp_tuned(5, 0), 0);
    assert_eq!(clamp_tuned(u32::MAX, u32::MAX), u32::MAX);
}

#[test]
fn gains_come_out_ascending() {
    assert_eq!(sort_gains(vec![63, -99, 197, 58, 58]), vec![-99, 58, 58, 63, 197]);
    assert_eq!(sort_gains(vec![]), Vec::<i32>::new());
}

#[test]
fn a_fresh_device_is_set_up_in_order() {
    assert_eq!(
        Source::setup(2_400_000, 91_000_000, 300_000),
        vec![
            Command::SetCenterFreq(91_000_000 - OFFSET_TUNING_HZ),
            Command::SetBandwidth(1_000_000),
            Command::SetSampleRate(2_400_000),
            Command::DisableAgc,
        ]
    );
    let s = Source::new(2_399_999, 91_000_000, vec![197, -99, 58], 40);
    assert_eq!(s.sample_rate(), 2_399_999);
    assert_eq!(s.applied_gain_tenths, 197);
    assert_eq!(s.gain_table, vec![-99, 58, 197]);
    assert_eq!(s.start(), vec![Command::SetTunerGain(197), Command::ResetBuffer]);
}

#[test]
fn signals_become_commands() {
    let mut s = Source::new(2_400_000, 91_000_000, FC0013.to_vec(), 40);
    assert_eq!(
        s.handle(CtrlSignal::CenterHz(100_000_000)),
        vec![Command::SetCenterFreq(99_650_000)]
    );
    assert_eq!(
        s.handle(CtrlSignal::CenterHz(1_000)),
        vec![Command::SetCenterFreq(0)]
    );
    s.handle(CtrlSignal::CenterHz(100_000_000));
    assert_eq!(
        s.handle(CtrlSignal::TunedHz(100_200_000)),
        vec![Command::SetOffset(200_000)]
    );
    assert_eq!(
        s.handle(CtrlSignal::TunedHz(50_000_000)),
        vec![Command::SetOffset(-(TUNE_SPAN_HZ as i64))]
    );
    assert_eq!(
        s.handle(CtrlSignal::Bandwidth(200_000)),
        vec![Command::SetBandwidth(900_000)]
    );
    assert_eq!(
        s.handle(CtrlSignal::GainTenths(120)),
        vec![Command::DisableAgc, Command::SetTunerGain(71)]
    );
    assert_eq!(s.handle(CtrlSignal::AgcOn), vec![Command::EnableAgc]);
    assert_eq!(s.handle(CtrlSignal::Ppm(-3)), vec![Command::SetPpm(-3)]);
    assert_eq!(s.handle(CtrlSignal::Quit), vec![Command::CancelAsyncRead]);
}

#[test]
fn notices_say_what_the_tuner_took() {
    let s = Source::new(2_400_000, 91_000_000, FC0013.to_vec(), 40);
    assert_eq!(
        s.notice(CtrlSignal::GainTenths(120)),
        Some(Notice::OtherGain { took: 71, asked: 120 })
    );
    assert_eq!(s.notice(CtrlSignal::GainTenths(70)), None);
    assert_eq!(
        s.notice(CtrlSignal::Bandwidth(200_000)),
        Some(Notice::Filter { tuner_hz: 900_000, channel_hz: 200_000 })
    );
    assert_eq!(s.notice(CtrlSignal::AgcOn), None);
}

#[test]
fn every_refusal_has_its_error() {
    let cases = [
        (Command::SetCenterFreq(7), CustomError::RtlSetFreq(7), "RTL-SDR: Failed to set center freq 7"),
        (Command::SetBandwidth(8), CustomError::RtlSetBandwidth(8), "RTL-SDR: Failed to set bandwidth 8"),
        (
            Command::SetSampleRate(9),
            CustomError::RtlSetSampleRate(9),
            "RTL-SDR: Failed to set sample rate 9",
        ),
        (Command::DisableAgc, CustomError::RtlDisableAgc, "RTL-SDR: Failed to disable AGC"),
        (Command::EnableAgc, CustomError::RtlEnableAgc, "RTL-SDR: Failed to enable AGC"),
        (
            Command::SetTunerGain(-54),
            CustomError::RtlSetGain(-54),
            "RTL-SDR: Failed to set tuner gain -54 dB",
        ),
        (Command::SetPpm(-1), CustomError::RtlSetPpm(-1), "RTL-SDR: Failed to set ppm correction -1"),
        (Command::ResetBuffer, CustomError::RtlResetBuffer, "RTL-SDR: Failed to reset buffer"),
    ];
    for (command, error, text) in cases {
        assert_eq!(command.failure(), Some(error));
        assert_eq!(error.message(), text);
    }
    assert_eq!(Command::CancelAsyncRead.failure(), None);
    assert_eq!(Command::SetOffset(1).failure(), None);
    assert_eq!(CustomError::RtlOpenDevice(0).message(), "RTL-SDR: Failed to open device 0");
    assert_eq!(CustomError::SlowConsumer.message(), "");
    assert_eq!(CustomError::Speaker.message(), "");
    assert_eq!(CustomError::Internal.message(), "");
    assert_eq!(CustomError::IQStreamNotEven.message(), "");
}
