use ferrite::compact::app_states::AppStates;
use ferrite::compact::control_signal::CtrlSignal;
use ferrite::compact::detectors::{AmEnvelope, DcBlocker, Deemphasis, FmDiscriminator, IqDcBlocker};
use ferrite::compact::receive::{Detector, Receiver, IQ_BLOCK};
use ferrite::compact::source::{handle, setup};
use ferrite::compact::stats_view::{Field, Reading, StatsView, TunerView};
use ferrite::compact::tui::{draw, on_key, Turn};
use ferrite::source::Command;
use ferrite::spmc::RingProducer;
use ferrite::text::{push_decimal, push_signed, push_two_digits};
use ferrite::tui::paint::{blank, Rect};
use ferrite::tui::signal_view::{Scales, SignalView};
use ferrite::tui::tui::KeyCode;
use ferrite::tui::tui_states::TuiStates;
use ratatui::buffer::Buffer;

fn text(buf: &Buffer) -> String {
    buf.content().iter().map(|c| c.symbol()).collect()
}

#[test]
fn the_device_is_set_up_with_its_own_agc() {
    assert_eq!(
        setup(2_400_000, 91_000_000, 300_000),
        vec![
            Command::SetCenterFreq(91_000_000),
            Command::SetBandwidth(300_000),
            Command::SetSampleRate(2_400_000),
            Command::EnableAgc,
            Command::ResetBuffer,
        ]
    );
    assert_eq!(handle(CtrlSignal::CenterHz(5)), Command::SetCenterFreq(5));
    assert_eq!(handle(CtrlSignal::Bandwidth(6)), Command::SetBandwidth(6));
    assert_eq!(handle(CtrlSignal::Gain(40)), Command::SetTunerGain(400));
    assert_eq!(handle(CtrlSignal::Ppm(7)), Command::SetPpm(7));
    assert_eq!(handle(CtrlSignal::Quit), Command::CancelAsyncRead);
}

#[test]
fn the_gain_shown_is_what_the_tuner_took() {
    let mut a = AppStates::new(2_400_000, 500_000, 91_000_000, 40, 300_000, 0);
    a.show_gain(197);
    assert_eq!(a.gain_db, 20);
    a.show_gain(194);
    assert_eq!(a.gain_db, 19);
    a.show_gain(-99);
    assert_eq!(a.gain_db, 0);
}

#[test]
fn five_settings_and_a_cursor() {
    let mut v = TunerView::new(91_000_000, 500_000, 40, 300_000, 0);
    assert_eq!(Field::Freq.value(&v), Reading::Mhz(91_000_000));
    assert_eq!(Field::Freq.value(&v).text(), None);
    assert_eq!(Field::Gain.value(&v).text().as_deref(), Some("40 dB"));
    assert_eq!(Field::Ppm.value(&v).text().as_deref(), Some("0"));
    assert_eq!(v.adjust(1), Some(CtrlSignal::CenterHz(91_500_000)));
    for _ in 0..5 {
        v.select(1);
    }
    assert_eq!(v.selected, 0, "wraps back to the top");
    v.select(-1);
    assert_eq!(v.selected, 4);
    assert_eq!(v.adjust(-1), Some(CtrlSignal::Ppm(0)), "never negative");
}

#[test]
fn the_statistics_fit_their_panel() {
    let mut v = StatsView::new(91_000_000, 500_000, 40, 300_000, 0);
    v.select(1);
    assert_eq!(v.tuner_view.selected, 1);
    v.adjust(1);
    let other = |r: Reading| format!("<{r:?}>");
    assert_eq!(
        v.tuner_view.values(&other),
        ["<Mhz(91000000)>", "<Hz(1000000)>", "40 dB", "<Hz(300000)>", "0"]
    );
    for (w, h) in [(0, 0), (20, 3), (40, 40)] {
        let area = Rect::new(0, 0, w, h);
        let mut buf = blank(area);
        v.render(area, &mut buf, &other);
        if h == 40 {
            let all = text(&buf);
            for f in Field::ALL {
                assert!(all.contains(f.label()), "{} missing", f.label());
            }
            assert!(all.contains("Tuner") && all.contains("<Hz(1000000)>") && all.contains("40 dB"), "{all}");
        }
    }
}

#[test]
fn four_keys_are_known() {
    assert_eq!(on_key(KeyCode::Char('q')), Turn::Quit);
    assert_eq!(on_key(KeyCode::Esc), Turn::Quit);
    assert_eq!(on_key(KeyCode::Up), Turn::Floor(2));
    assert_eq!(on_key(KeyCode::Down), Turn::Floor(-2));
    assert_eq!(on_key(KeyCode::Char('x')), Turn::Stay);
    assert_eq!(on_key(KeyCode::Tab), Turn::Stay);
}

#[test]
fn the_signal_fills_what_the_statistics_leave() {
    let s = TuiStates::new(
        2_400_000, 48_000, 91_000_000, 91_000_000, 100_000, 0, 300_000, 0, -90, 0,
    );
    let v = SignalView::new(64, 8, &s);
    let none = |_: i64, _: i64, _: usize, _: usize| String::new();
    let scales = Scales {
        db_label: none,
        time_label: none,
        freq_label: none,
        reach: |_: i32, _: usize| 0usize,
        eighths: |_: i32, _: usize| 0usize,
        color: |_: i32| (0u8, 0u8, 0u8),
    };
    let area = Rect::new(0, 0, 100, 10);
    let mut buf = blank(area);
    draw(area, &mut buf, &v, &s, &scales);
    let top: String = (0..100).map(|x| buf.cell((x, 0)).unwrap().symbol()).collect();
    assert_eq!(top.chars().take(6).collect::<String>(), "\u{250c}Stats");
    assert_eq!(top.chars().skip(30).take(9).collect::<String>(), "\u{250c}Spectrum");
}

#[test]
fn numbers_are_written_out() {
    let mut s = String::new();
    push_decimal(&mut s, 0);
    push_decimal(&mut s, u64::MAX);
    push_signed(&mut s, -45);
    push_signed(&mut s, i64::MIN);
    push_two_digits(&mut s, 7);
    push_two_digits(&mut s, 123);
    assert_eq!(s, format!("0{}-45{}07123", u64::MAX, i64::MIN));
}

#[test]
fn fifty_pairs_make_a_sample() {
    let detector = Detector {
        center: |b: u8| b as i64 - 128,
        highpass: |x: i64, before: i64, out: i64| x - before + out,
        sum: |a: i64, b: i64| a + b,
        mean: |total: i64| total / 10,
        angle: |i: i64, q: i64, pi: i64, _: i64| 10 * i + pi + 1000 * q,
        pole: |x: i64, last: i64| x + last,
        heard: |total: i64| 2 * total,
    };
    let mut speaker = RingProducer::<i64, 16, 512>::new(false);
    let mut spectrum = RingProducer::<u8, 16, 16384>::new(false);
    let (ears, eyes) = (speaker.subscribe(), spectrum.subscribe());
    let mut receiver = Receiver::new(0i64);

    let pairs: Vec<u8> = [129u8, 128].repeat(49);
    receiver.receive(&pairs, &detector, &mut speaker, &mut spectrum);
    assert_eq!(speaker.pending(), 0, "a sample is not due yet");
    assert_eq!(receiver.step(129, 128, &detector), Some(320));
    assert_eq!(spectrum.ring().head(), 0, "not a whole transfer");

    let transfer: Vec<u8> = [129u8, 128].repeat(IQ_BLOCK / 2);
    for _ in 0..4 {
        receiver.receive(&transfer, &detector, &mut speaker, &mut spectrum);
    }
    assert_eq!(speaker.ring().head(), 1);
    assert_eq!(speaker.pending(), (50 + 4 * IQ_BLOCK / 2) / 50 - 1 - 512);
    // After the first sample the pole has gathered 54, and gets 11 each time.
    assert_eq!(ears.read(speaker.ring_mut()).unwrap()[0], 2 * (65 + 76 + 87 + 98 + 109));
    assert_eq!(spectrum.ring().head(), 4);
    assert_eq!(eyes.read(spectrum.ring_mut()).unwrap(), &transfer[..]);
}

#[test]
fn a_blocker_looks_at_its_last_input_and_output() {
    let highpass = |x: i64, before: i64, out: i64| x - before + out / 2;
    let mut b = DcBlocker::new(0i64);
    assert_eq!(b.process(8, &highpass), 8);
    assert_eq!(b.process(8, &highpass), 4);
    assert_eq!(b.process(8, &highpass), 2);
    assert_eq!((b.x_prev, b.y_prev), (8, 2));
}

#[test]
fn an_envelope_is_measured_against_the_tracked_carrier() {
    let envelope = |i: i64, q: i64| i.abs() + q.abs();
    let track = |env: i64, carrier: i64| carrier + (env - carrier) / 2;
    let depth = |env: i64, carrier: i64| env - carrier;
    let mut a = AmEnvelope::new(0i64);
    assert_eq!(a.process(3, -5, &envelope, &track, &depth), 4);
    assert_eq!(a.carrier, 4);
    assert_eq!(a.process(3, -5, &envelope, &track, &depth), 2);
}

#[test]
fn detectors_look_at_the_pair_before() {
    let mut b = IqDcBlocker::new(0i64);
    let highpass = |x: i64, before: i64, out: i64| x - before + out / 2;
    assert_eq!(b.process(8, -8, &highpass), (8, -8));
    assert_eq!(b.process(8, 0, &highpass), (4, 4), "each leg by itself");

    let mut d = FmDiscriminator::new(0i64);
    let angle = |i: i64, q: i64, pi: i64, pq: i64| i * 1000 + q * 100 + pi * 10 + pq;
    assert_eq!(d.process(1, 3, &angle), 1300);
    assert_eq!(d.process(2, 4, &angle), 2413);

    let mut e = Deemphasis::new(0i64);
    let pole = |x: i64, last: i64| x + 2 * last;
    assert_eq!(e.process(1, &pole), 1);
    assert_eq!(e.process(1, &pole), 3);
    assert_eq!(e.state, 3);
}

#[test]
fn full_modulation_is_one() {
    let alpha = 1.0 - (-2.0 * std::f32::consts::PI * 20.0 / 240e3f32).exp();
    let envelope = |i: f32, q: f32| (i * i + q * q).sqrt();
    let track = |env: f32, carrier: f32| carrier + alpha * (env - carrier);
    let depth = |env: f32, carrier: f32| (env - carrier) / carrier.max(1e-6);
    let mut a = AmEnvelope::new(0.0f32);
    for _ in 0..240_000 {
        a.process(0.6, 0.8, &envelope, &track, &depth);
    }
    assert!((a.carrier - 1.0).abs() < 1e-2, "the carrier is tracked: {}", a.carrier);
    let crest = a.process(1.2, 1.6, &envelope, &track, &depth);
    let trough = a.process(0.0, 0.0, &envelope, &track, &depth);
    assert!((crest - 1.0).abs() < 1e-2 && (trough + 1.0).abs() < 1e-2);
}

#[test]
fn each_panel_has_a_quarter_of_the_rows() {
    let v = StatsView::new(91_000_000, 500_000, 40, 300_000, 0);
    let area = Rect::new(0, 0, 20, 10);
    let mut buf = blank(area);
    v.render(area, &mut buf, &|_: Reading| String::new());
    for (y, title) in [(0, "Tuner"), (3, "Info"), (5, "Mode"), (8, "Shortcut")] {
        let row: String = (0..20).map(|x| buf.cell((x, y)).unwrap().symbol()).collect();
        assert!(row.contains(title), "{title} is not in row {y}: {row:?}");
    }
}
