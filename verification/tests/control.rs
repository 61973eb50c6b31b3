use ferrite::control_signal::CtrlSignal;
use ferrite::log::Level;
use ferrite::source::TUNE_SPAN_HZ;
use ferrite::tui::colors;
use ferrite::tui::control_panel::{field_values, render_row, HEIGHT};
use ferrite::tui::control_view::{
    fmt_hz, gain_step, offset, on_off, rung, ControlView, Field, HzUnit, Reading, Topic,
    BW_LADDER, FREQ_RANGE, STEP_LADDER,
};
use ferrite::tui::paint::{blank, Rect};
use ferrite::tui::tui_states::{Health, Pane, TuiStates, TunerMode, UNMEASURED};
use ratatui::style::Color;

fn rgb(c: (u8, u8, u8)) -> Color {
    Color::Rgb(c.0, c.1, c.2)
}

/// A plausible radio: 2.4 MS/s, 48 kHz audio, 91 MHz, 100 kHz step, 300 kHz
/// channel, no PPM correction.
fn states(gain_tenths: i32, floor_db: i32, ceil_db: i32) -> TuiStates {
    TuiStates::new(
        2_400_000,
        48_000,
        91_000_000,
        91_350_000,
        100_000,
        gain_tenths,
        300_000,
        0,
        floor_db,
        ceil_db,
    )
}

/// A frequency or a width with its fraction.
fn with_fraction(r: Reading) -> String {
    match r {
        Reading::Mhz(hz) => format!("{:.3} MHz", hz as f64 / 1e6),
        Reading::Hz(hz) => match fmt_hz(hz) {
            HzUnit::Mhz => format!("{:.3} MHz", hz as f64 / 1e6),
            HzUnit::Khz => format!("{:.1} kHz", hz as f64 / 1e3),
            HzUnit::Hz => format!("{hz} Hz"),
        },
        other => panic!("{other:?} has a text of its own"),
    }
}

#[test]
fn a_ladder_starts_from_the_nearest_rung_and_saturates() {
    assert_eq!(rung(&STEP_LADDER, 7_000, 1), 10_000, "7k is nearest 5k");
    assert_eq!(rung(&STEP_LADDER, 1_000, -1), 1_000, "already at the bottom");
    assert_eq!(rung(&STEP_LADDER, 1_000_000, 1), 1_000_000, "and the top");
}

#[test]
fn tuning_down_past_zero_saturates_rather_than_wrapping() {
    assert_eq!(offset(1_000, -5_000, FREQ_RANGE), FREQ_RANGE.0);
}

#[test]
fn moving_the_centre_carries_the_channel_with_it() {
    let mut st = states(197, -90, 0);
    let gap = st.tuned_freq as i64 - st.center_freq as i64;

    for dir in [1, 1, 1, -1, -1, -1, -1] {
        let sig = Field::Freq.adjust(&mut st, &[], dir);
        assert!(matches!(sig, Some(CtrlSignal::CenterHz(_))));
        assert_eq!(
            st.tuned_freq as i64 - st.center_freq as i64,
            gap,
            "the channel drifted relative to the centre"
        );
    }
}

#[test]
fn the_channel_moves_alone_and_stops_at_the_span_edge() {
    let mut st = states(197, -90, 0);
    let center = st.center_freq;

    for dir in [1, -1] {
        for _ in 0..40 {
            Field::Tuned.adjust(&mut st, &[], dir);
            assert_eq!(st.center_freq, center, "Tuned must not retune");
        }
        let gap = st.tuned_freq as i64 - center as i64;
        assert_eq!(
            gap.abs(),
            TUNE_SPAN_HZ as i64,
            "should have clamped hard at the span edge, not run past it"
        );
    }
}

#[test]
fn the_cursor_visits_every_field_once_per_cycle() {
    let st = states(197, -90, 0);
    let mut v = ControlView::new(vec![]);

    let mut seen = vec![];
    for _ in 0..Field::ALL.len() {
        seen.push(v.focused(&st).0);
        v.select(1);
    }
    assert_eq!(v.cursor(), 0, "wraps back to the top");
    assert_eq!(seen.len(), Field::ALL.len());
    seen.sort_unstable();
    seen.dedup();
    assert_eq!(seen.len(), Field::ALL.len(), "no duplicate labels");
}

#[test]
fn a_pane_too_short_for_the_list_clips_instead_of_panicking() {
    let st = states(197, -90, 0);
    let v = ControlView::new(vec![58, 197]);

    for height in 0..=HEIGHT + 4 {
        let area = Rect::new(0, 0, 30, height);
        let mut buf = blank(area);
        v.render(area, &mut buf, &st, &with_fraction, true);
    }

    let area = Rect::new(0, 0, 30, HEIGHT);
    let mut buf = blank(area);
    v.render(area, &mut buf, &st, &with_fraction, true);
    let text: String = buf.content().iter().map(|c| c.symbol()).collect();
    let mut at = 0;
    for f in Field::ALL {
        let found = text[at..].find(f.label());
        assert!(found.is_some(), "{} missing", f.label());
        at += found.unwrap();
    }
    let words = field_values(&st, &with_fraction);
    assert_eq!(words.len(), Field::ALL.len());
    assert_eq!(words[1], "91.000 MHz");
    assert_eq!(words[3], "100.0 kHz");
    assert_eq!(words[4], "19.7 dB");
    assert_eq!(words[7], "+0");
    assert_eq!(words[11], "-90 dB");
    for v in words {
        assert!(text.contains(&v), "{v} missing");
    }
}

#[test]
fn the_focused_row_is_lifted_across_the_full_width() {
    let st = states(197, -90, 0);
    let mut v = ControlView::new(vec![]);
    v.select(1);

    let area = Rect::new(0, 0, 30, HEIGHT);
    let mut buf = blank(area);
    v.render(area, &mut buf, &st, &with_fraction, true);

    let lifted: Vec<u16> = (area.y..area.bottom())
        .filter(|&y| buf.cell((1, y)).unwrap().bg == rgb(colors::BG_SELECTED))
        .collect();

    assert_eq!(lifted.len(), 1, "exactly one row carries the focus");
    let y = lifted[0];
    for x in (area.x + 1)..(area.right() - 1) {
        assert_eq!(
            buf.cell((x, y)).unwrap().bg,
            rgb(colors::BG_SELECTED),
            "column {x} of the focused row is not lifted"
        );
    }
}

#[test]
fn an_unfocused_pane_lifts_no_row() {
    let st = states(197, -90, 0);
    let v = ControlView::new(vec![]);

    let area = Rect::new(0, 0, 30, HEIGHT);
    let mut buf = blank(area);
    v.render(area, &mut buf, &st, &with_fraction, false);

    assert!(
        !buf.content().iter().any(|c| c.bg == rgb(colors::BG_SELECTED)),
        "an unfocused pane painted a selection"
    );
}

#[test]
fn the_panel_paints_a_card_ground() {
    let st = states(197, -90, 0);
    let v = ControlView::new(vec![]);

    let area = Rect::new(0, 0, 30, HEIGHT);
    let mut buf = blank(area);
    v.render(area, &mut buf, &st, &with_fraction, false);

    for (x, y) in [(area.x, area.y), (area.x + 1, area.y + 1)] {
        assert_eq!(
            buf.cell((x, y)).unwrap().bg,
            rgb(colors::BG_CARD),
            "cell ({x}, {y}) is not on the card ground"
        );
    }
}

#[test]
fn gain_steps_the_tuners_table_not_whole_db() {
    let table = vec![-99, -73, -65, 58, 61, 63, 179, 181, 197];
    assert_eq!(gain_step(&table, 63, 1), 179, "steps across the gap, not by 1 dB");
    assert_eq!(gain_step(&table, 63, -1), 61);
    assert_eq!(gain_step(&table, 197, 1), 197, "saturates at the ceiling");
}

#[test]
fn gain_with_no_table_is_a_no_op() {
    assert_eq!(gain_step(&[], 123, 1), 123);
}

#[test]
fn the_display_range_cannot_collapse() {
    let mut s = states(197, -20, -12);

    Field::Floor.adjust(&mut s, &[], 1);
    assert_eq!(s.floor_db, -18);
    assert_eq!(s.ceil_db, -8, "ceiling pushed up to keep the span");

    Field::Ceil.adjust(&mut s, &[], -1);
    assert_eq!(s.ceil_db, -10);
    assert_eq!(s.floor_db, -20, "floor pushed down");
}

#[test]
fn adjusting_gain_while_agc_is_on_turns_agc_off() {
    let mut s = states(63, -90, 0);
    s.agc = true;

    let sig = Field::Gain.adjust(&mut s, &[58, 63, 179], 1);
    assert!(!s.agc);
    assert_eq!(s.gain_tenths, 179, "and the gain still moved");
    assert!(
        matches!(sig, Some(CtrlSignal::GainTenths(179))),
        "one signal carries both halves: manual mode, at this value"
    );
}

#[test]
fn turning_agc_off_re_applies_the_panel_gain() {
    let mut s = states(63, -90, 0);
    s.agc = false;
    let table = [58, 63, 179];

    assert!(matches!(Field::Agc.adjust(&mut s, &table, 1), Some(CtrlSignal::AgcOn)));
    assert!(s.agc);

    let sig = Field::Agc.adjust(&mut s, &table, 1);
    assert!(!s.agc);
    assert!(matches!(sig, Some(CtrlSignal::GainTenths(63))));
}

#[test]
fn every_field_moves_what_it_names() {
    let mut s = states(63, -90, 0);
    s.agc = false;

    assert_eq!(Field::Step.adjust(&mut s, &[], 1), None);
    assert_eq!(s.step, 1_000_000);
    assert_eq!(Field::Bw.adjust(&mut s, &[], 1), Some(CtrlSignal::Bandwidth(500_000)));
    assert_eq!(s.bandwidth, 500_000);
    assert_eq!(Field::Ppm.adjust(&mut s, &[], -1), Some(CtrlSignal::Ppm(-1)));
    assert_eq!(s.ppm, -1);
    Field::Mute.adjust(&mut s, &[], 1);
    assert!(s.muted);
    Field::Deemph.adjust(&mut s, &[], 1);
    assert_eq!(s.deemph_us, 75);
    Field::Deemph.adjust(&mut s, &[], 1);
    assert_eq!(s.deemph_us, 50);
    let first = s.mode;
    for _ in 0..6 {
        Field::Mode.adjust(&mut s, &[], 1);
    }
    assert_eq!(s.mode, first, "the modes go round");
}

#[test]
fn a_correction_stays_in_its_range() {
    let mut s = states(63, -90, 0);
    for _ in 0..150 {
        Field::Ppm.adjust(&mut s, &[], -1);
    }
    assert_eq!(s.ppm, -100);
    for _ in 0..300 {
        Field::Ppm.adjust(&mut s, &[], 1);
    }
    assert_eq!(s.ppm, 100);
}

#[test]
fn settings_that_do_nothing_are_marked() {
    let mut s = states(63, -90, 0);
    assert!(Field::Gain.inert(&s), "AGC is on");
    s.agc = false;
    assert!(!Field::Gain.inert(&s));
    assert!(!Field::Volume.inert(&s));
    s.muted = true;
    assert!(Field::Volume.inert(&s));
    assert!(!Field::Mode.inert(&s));
    Field::Mode.adjust(&mut s, &[], 1);
    assert!(Field::Mode.inert(&s));
}

#[test]
fn readings_name_their_unit() {
    let s = states(63, -90, 0);
    assert_eq!(Field::Freq.value(&s), Reading::Mhz(91_000_000));
    assert_eq!(Field::Step.value(&s), Reading::Hz(100_000));
    assert_eq!(Field::Gain.value(&s), Reading::TenthsDb(63));
    assert_eq!(Field::Floor.value(&s), Reading::Db(-90));
    assert_eq!(fmt_hz(999), HzUnit::Hz);
    assert_eq!(fmt_hz(1_000), HzUnit::Khz);
    assert_eq!(fmt_hz(999_999), HzUnit::Khz);
    assert_eq!(fmt_hz(1_000_000), HzUnit::Mhz);
    let texts = [
        (Reading::TenthsDb(-54), Some("-5.4 dB")),
        (Reading::TenthsDb(-3), Some("-0.3 dB")),
        (Reading::TenthsDb(197), Some("19.7 dB")),
        (Reading::Ppm(0), Some("+0")),
        (Reading::Ppm(-7), Some("-7")),
        (Reading::Db(-90), Some("-90 dB")),
        (Reading::Micros(75), Some("75 \u{b5}s")),
        (Reading::Plain(70), Some("70")),
        (Reading::Switch(true), Some("on")),
        (Reading::Hz(999), Some("999 Hz")),
        (Reading::Hz(1_000), None),
        (Reading::Mhz(91_000_000), None),
    ];
    for (reading, text) in texts {
        assert_eq!(reading.text().as_deref(), text, "{reading:?}");
    }
    assert_eq!(Field::Mode.value(&s).text().as_deref(), Some(s.mode.label()));
    assert_eq!(on_off(true), "on");
    assert_eq!(on_off(false), "off");
}

#[test]
fn notices_are_given_where_something_is_worth_saying() {
    let mut s = states(63, -90, 0);
    assert_eq!(Field::Gain.notice(&s), Some((Level::Info, Topic::Gain(63))));
    assert_eq!(
        Field::Mode.notice(&s),
        Some((Level::Info, Topic::Mode(TunerMode::WbFm)))
    );
    Field::Mode.adjust(&mut s, &[], 1);
    assert!(matches!(Field::Mode.notice(&s), Some((Level::Warn, _))));
    assert_eq!(Field::Freq.notice(&s), None);
}

#[test]
fn reaching_for_the_gain_says_that_the_agc_is_off() {
    let mut before = states(63, -90, 0);
    before.agc = true;
    let mut after = before;
    Field::Gain.adjust(&mut after, &[58, 63, 197], 1);
    assert_eq!(
        Field::Gain.notices(&before, &after),
        [(Level::Info, Topic::Gain(197)), (Level::Info, Topic::Manual)]
    );
    assert_eq!(Field::Gain.notices(&after, &after), [(Level::Info, Topic::Gain(197))]);
    assert_eq!(Field::Freq.notices(&before, &after), []);
    assert_eq!(Field::Agc.notices(&before, &after), [(Level::Info, Topic::Agc(false))]);
}

#[test]
fn lines_of_the_log_say_what_was_set() {
    let line = |t: Topic| t.text(&with_fraction);
    assert_eq!(line(Topic::Mode(TunerMode::WbFm)), "mode WFM");
    assert_eq!(line(Topic::Mode(TunerMode::Am)), "mode AM selected but not implemented");
    assert_eq!(line(Topic::Gain(-99)), "gain -9.9 dB");
    assert_eq!(line(Topic::Agc(true)), "AGC on");
    assert_eq!(line(Topic::Agc(false)), "AGC off");
    assert_eq!(line(Topic::Manual), "AGC off (manual gain)");
    assert_eq!(line(Topic::Bandwidth(200_000)), "channel bandwidth 200.0 kHz");
    assert_eq!(line(Topic::Bandwidth(900)), "channel bandwidth 900 Hz");
    assert_eq!(line(Topic::Deemph(75)), "de-emphasis 75 \u{b5}s");
}

#[test]
fn sections_head_their_groups() {
    let heads: Vec<(&str, &str)> = Field::ALL
        .iter()
        .filter_map(|f| f.section().map(|s| (s, f.label())))
        .collect();
    assert_eq!(heads, vec![("RADIO", "Mode"), ("AUDIO", "Volume"), ("DISPLAY", "Floor")]);
}

#[test]
fn selecting_back_undoes_selecting() {
    let mut v = ControlView::new(vec![]);
    v.select(-1);
    assert_eq!(v.field(), Field::Ceil);
    v.select(1);
    assert_eq!(v.field(), Field::Mode);
}

#[test]
fn modes_round_trip_through_their_numbers() {
    for (i, m) in TunerMode::ALL.iter().enumerate() {
        assert_eq!(m.to_u8() as usize, i);
        assert_eq!(TunerMode::from_u8(i as u8), *m);
    }
    assert_eq!(TunerMode::from_u8(200), TunerMode::WbFm);
    assert_eq!(Pane::Control.next(), Pane::Log);
    assert_eq!(Pane::Log.next(), Pane::Control);
}

#[test]
fn nothing_is_measured_at_first() {
    let h = Health::new();
    assert_eq!(h.rssi_dbfs_x10, UNMEASURED);
    assert_eq!(h.snr_db_x10, UNMEASURED);
    assert_eq!((h.iq_drops, h.iq_laps, h.underruns), (0, 0, 0));
}

#[test]
fn bandwidths_come_off_the_ladder() {
    assert_eq!(rung(&BW_LADDER, 300_000, -1), 200_000);
    assert_eq!(rung(&BW_LADDER, 310_000, 1), 500_000);
}

#[test]
fn a_row_shows_the_value_it_has() {
    let st = states(197, -90, 0);
    let area = Rect::new(0, 0, 30, 1);
    let mut buf = blank(area);
    render_row(&mut buf, area, Field::Gain, true, &st, &with_fraction);
    let text: String = buf.content().iter().map(|c| c.symbol()).collect();
    assert!(text.starts_with("\u{25b8} Gain"), "{text:?}");
    assert!(text.ends_with("19.7 dB"), "{text:?}");
}

#[test]
fn a_value_too_wide_loses_its_start() {
    let area = Rect::new(0, 0, 14, 1);
    let mut buf = blank(area);
    render_row(&mut buf, area, Field::Freq, false, &states(197, -90, 0), &with_fraction);
    let text: String = buf.content().iter().map(|c| c.symbol()).collect();
    assert_eq!(text, "  Freq     MHz");

    // Up to the last column but one that there can be.
    let area = Rect::new(65_500, 0, 34, 1);
    let mut buf = blank(area);
    render_row(&mut buf, area, Field::Deemph, false, &states(197, -90, 0), &with_fraction);
    let text: String = buf.content().iter().map(|c| c.symbol()).collect();
    assert!(text.ends_with("50 \u{b5}s"), "{text:?}");
}

#[test]
fn only_the_correction_needs_room_to_move() {
    let mut st = states(197, -90, 0);
    st.ppm = i32::MAX;
    let mut v = ControlView::new(vec![]);
    v.select(1);
    assert_eq!(v.adjust(&mut st, 1), Some(CtrlSignal::CenterHz(91_100_000)));
    while v.field() != Field::Ppm {
        v.select(1);
    }
    assert_eq!(v.adjust(&mut st, -1), Some(CtrlSignal::Ppm(100)));
}
