use ferrite::control_signal::CtrlSignal;
use ferrite::log::{self, Level};
use ferrite::tui::app_states::AppStates;
use ferrite::tui::colors;
use ferrite::tui::colors::SPECTRUM_STOPS;
use ferrite::tui::control_view::{Field, Reading};
use ferrite::tui::info_view::{label, measured, InfoReading, InfoView, HEIGHT};
use ferrite::tui::log_view::{level_style, LogView};
use ferrite::tui::paint::{blank, lift, Rect};
use ferrite::tui::screen::{divide, Wording};
use ferrite::tui::signal_view::{Scales, SignalView};
use ferrite::tui::status_bar::StatusBar;
use ferrite::tui::tui::{KeyCode, KeyEvent, Status, Tui, STATUS_TTL};
use ferrite::tui::tui_states::{Health, Pane, TuiStates, TunerMode};
use ratatui::buffer::Buffer;
use ratatui::style::Color;

fn rgb(c: (u8, u8, u8)) -> Color {
    Color::Rgb(c.0, c.1, c.2)
}

fn row_text(buf: &Buffer, y: u16, width: u16) -> String {
    (0..width).map(|x| buf.cell((x, y)).unwrap().symbol()).collect()
}

fn states() -> TuiStates {
    TuiStates::new(
        2_400_000, 48_000, 91_000_000, 91_350_000, 100_000, 197, 300_000, 0, -90, 0,
    )
}

/// WCAG relative luminance.
fn luminance(c: [f32; 3]) -> f32 {
    let lin = |v: f32| {
        let v = v / 255.0;
        if v <= 0.04045 {
            v / 12.92
        } else {
            ((v + 0.055) / 1.055).powf(2.4)
        }
    };
    0.2126 * lin(c[0]) + 0.7152 * lin(c[1]) + 0.0722 * lin(c[2])
}

fn stops() -> Vec<[f32; 3]> {
    SPECTRUM_STOPS.iter().map(|s| s.map(|v| v as f32)).collect()
}

#[test]
fn stops_are_monotone_in_lightness() {
    let mut prev = f32::NEG_INFINITY;
    for (i, stop) in stops().iter().enumerate() {
        let l = luminance(*stop);
        assert!(
            l > prev,
            "stop {i} ({stop:?}) is not lighter than the one below it: {l} <= {prev}"
        );
        prev = l;
    }
}

#[test]
fn stops_are_perceptually_evenly_spaced() {
    let lstar = |c: [f32; 3]| {
        let y = luminance(c);
        if y <= 0.008856 {
            903.3 * y
        } else {
            116.0 * y.cbrt() - 16.0
        }
    };

    let steps: Vec<f32> = stops().windows(2).map(|w| lstar(w[1]) - lstar(w[0])).collect();

    let mn = steps.iter().copied().fold(f32::MAX, f32::min);
    let mx = steps.iter().copied().fold(f32::MIN, f32::max);
    assert!(
        mx / mn < 2.0,
        "worst step ratio {:.2}x is too uneven: {steps:?}",
        mx / mn
    );
}

#[test]
fn the_gradient_is_never_warm() {
    for s in SPECTRUM_STOPS {
        assert!(s[0] <= s[1] && s[0] <= s[2]);
    }
}

fn press(code: KeyCode) -> KeyEvent {
    KeyEvent { code, press: true, ctrl: false }
}

#[test]
fn keys_do_what_the_hints_say() {
    let mut t = Tui::new(states(), vec![58, 63, 197]);

    let o = t.on_key(press(KeyCode::Down));
    assert_eq!((o.quit, o.signal), (false, None));
    assert_eq!(t.control_view.field(), Field::Freq);
    t.on_key(press(KeyCode::Up));
    assert_eq!(t.control_view.field(), Field::Mode);
    t.on_key(press(KeyCode::Down));

    let o = t.on_key(press(KeyCode::Right));
    assert_eq!(o.signal, Some(CtrlSignal::CenterHz(91_100_000)));
    assert_eq!(o.status, Some(Status::Field(Field::Freq, Reading::Mhz(91_100_000))));
    let o = t.on_key(press(KeyCode::Left));
    assert_eq!(o.signal, Some(CtrlSignal::CenterHz(91_000_000)));

    let o = t.on_key(press(KeyCode::Char(']')));
    assert_eq!(o.status, Some(Status::Floor(-88)));
    let o = t.on_key(press(KeyCode::Char('[')));
    assert_eq!(o.status, Some(Status::Floor(-90)));

    let o = t.on_key(press(KeyCode::Char('m')));
    assert_eq!(o.status, Some(Status::Muted(true)));
    assert!(t.states.muted);

    t.on_key(press(KeyCode::Tab));
    assert_eq!(t.states.focus, Pane::Log);
    t.on_key(press(KeyCode::Up));
    t.on_key(press(KeyCode::Up));
    t.on_key(press(KeyCode::Down));
    assert_eq!(t.states.log_scroll, 1, "up scrolls back through the history");
    t.on_key(press(KeyCode::Char('g')));
    assert_eq!(t.states.log_scroll, 0);
    t.on_key(press(KeyCode::Down));
    assert_eq!(t.states.log_scroll, 0, "there is nothing below the tail");
    t.on_key(press(KeyCode::Up));
    t.on_key(press(KeyCode::BackTab));
    assert_eq!(t.states.focus, Pane::Control);
    assert_eq!(t.states.log_scroll, 0, "coming back shows the tail");
    assert_eq!(t.on_key(press(KeyCode::Other)).status, None);
}

#[test]
fn every_way_out_tells_the_controller() {
    let mut t = Tui::new(states(), vec![]);
    let ways = [
        press(KeyCode::Char('q')),
        press(KeyCode::Esc),
        KeyEvent { code: KeyCode::Char('c'), press: true, ctrl: true },
    ];
    for k in ways {
        let o = t.on_key(k);
        assert!(o.quit);
        assert_eq!(o.signal, Some(CtrlSignal::Quit));
    }
    assert!(!t.on_key(press(KeyCode::Char('c'))).quit, "only with control held");
}

#[test]
fn a_key_going_up_does_nothing() {
    let mut t = Tui::new(states(), vec![]);
    for code in [KeyCode::Char('q'), KeyCode::Right, KeyCode::Tab] {
        let o = t.on_key(KeyEvent { code, press: false, ctrl: false });
        assert_eq!((o.quit, o.signal, o.status), (false, None, None));
    }
    assert_eq!(t.states, states());
}

#[test]
fn the_message_says_what_changed() {
    let row = Status::Field(Field::Gain, Reading::TenthsDb(197));
    let other = |r: Reading| format!("<{r:?}>");
    assert_eq!(row.text(&other), "Gain  19.7 dB");
    let row = Status::Field(Field::Freq, Reading::Mhz(7));
    assert_eq!(row.text(&other), "Freq  <Mhz(7)>");
    assert_eq!(Status::Floor(-88).text(&other), "Floor  -88 dB");
    assert_eq!(Status::Muted(true).text(&other), "Muted");
    assert_eq!(Status::Muted(false).text(&other), "Unmuted");
}

#[test]
fn a_message_stays_for_a_while() {
    let mut t = Tui::new(states(), vec![]);
    assert_eq!(t.status(0), None);
    t.set_status("Muted".to_string(), 1_000);
    assert_eq!(t.status(1_000), Some("Muted"));
    assert_eq!(t.status(1_000 + STATUS_TTL - 1), Some("Muted"));
    assert_eq!(t.status(1_000 + STATUS_TTL), None);
}

#[test]
fn the_bar_shows_hints_or_the_message() {
    let area = Rect::new(0, 0, 90, 1);
    let mut buf = blank(area);
    StatusBar.render(area, &mut buf, &states(), None);
    let text = row_text(&buf, 0, 90);
    for what in ["field", "adjust", "floor", "mute", "pane", "quit"] {
        assert!(text.contains(what), "{what} is not in {text:?}");
    }

    let mut s = states();
    s.focus = Pane::Log;
    let mut buf = blank(area);
    StatusBar.render(area, &mut buf, &s, None);
    let text = row_text(&buf, 0, 90);
    assert!(text.contains("scroll") && text.contains("tail") && !text.contains("mute"));

    let mut buf = blank(area);
    StatusBar.render(area, &mut buf, &states(), Some("Floor  -88 dB"));
    assert!(row_text(&buf, 0, 90).starts_with(" Floor  -88 dB"));
    assert_eq!(buf.cell((1, 0)).unwrap().fg, rgb(colors::STATUS_FG));
    assert_eq!(buf.cell((1, 0)).unwrap().bg, rgb(colors::STATUS_BG));
}

#[test]
fn the_info_panel_reports_the_health() {
    let mut health = Health::new();
    health.iq_drops = 3;
    health.snr_db_x10 = 215;
    let v = InfoView::new(91_000_000, 2_400_000, 48_000, health);
    assert_eq!(v.reading(0), InfoReading::MegaSamples(2_400_000));
    assert_eq!(v.reading(1), InfoReading::Khz(48));
    assert_eq!(v.reading(2), InfoReading::Mhz(90_650_000));
    assert_eq!(v.reading(3), InfoReading::Dbfs(None));
    assert_eq!(v.reading(4), InfoReading::Db(Some(215)));
    let texts: Vec<Option<String>> = (0..7).map(|i| v.reading(i).text()).collect();
    assert_eq!(texts[0], None);
    assert_eq!(texts[1].as_deref(), Some("48 kHz"));
    assert_eq!(texts[3].as_deref(), Some("\u{2014}"), "not measured is no zero");
    assert_eq!(texts[4].as_deref(), Some("21.5 dB"));
    assert_eq!(texts[5].as_deref(), Some("3 / 0"));
    assert_eq!(texts[6].as_deref(), Some("0"));
    assert_eq!(InfoReading::Dbfs(Some(-405)).text().as_deref(), Some("-40.5 dBFS"));
    assert_eq!(measured(-7), Some(-7));
    assert_eq!(label(0), "Rate");

    let other = |r: InfoReading| match r {
        InfoReading::MegaSamples(rate) => format!("{:.3} MS/s", rate as f64 / 1e6),
        InfoReading::Mhz(hz) => format!("{:.3} MHz", hz as f64 / 1e6),
        other => panic!("{other:?} has a text of its own"),
    };
    let values = v.values(&other);
    assert_eq!(values[0], "2.400 MS/s");
    assert_eq!(values[2], "90.650 MHz");
    let area = Rect::new(0, 0, 30, HEIGHT);
    let mut buf = blank(area);
    v.render(area, &mut buf, &other);
    assert!(row_text(&buf, 0, 30).contains("Info"));
    for i in 0..7u16 {
        let text = row_text(&buf, i + 1, 30);
        assert!(text.contains(label(i as usize)), "{text:?}");
        assert!(text.contains(&values[i as usize]), "{text:?}");
    }
    for height in 0..HEIGHT {
        let area = Rect::new(0, 0, 30, height);
        let mut buf = blank(area);
        v.render(area, &mut buf, &other);
    }
}

fn filled_log(lines: usize) -> log::Ring {
    let mut ring = log::Ring::new(1_000);
    for i in 0..lines {
        log::record(&mut ring, Level::Info, format!("line {i}"), 1_000 + 61_000 * i as u64);
    }
    ring
}

#[test]
fn the_log_follows_its_tail() {
    let ring = filled_log(10);
    let area = Rect::new(0, 0, 30, 6);
    let mut buf = blank(area);
    assert_eq!(LogView.render(area, &mut buf, &ring, 0, true), 0);
    assert!(row_text(&buf, 4, 30).contains("09:09 line 9"), "{:?}", row_text(&buf, 4, 30));
    assert!(row_text(&buf, 1, 30).contains("line 6"));

    let mut buf = blank(area);
    assert_eq!(LogView.render(area, &mut buf, &ring, 2, true), 2);
    assert!(row_text(&buf, 4, 30).contains("line 7"));

    let mut buf = blank(area);
    assert_eq!(LogView.render(area, &mut buf, &ring, 99, true), 6, "no further than the oldest");
    assert!(row_text(&buf, 1, 30).contains("00:00 line 0"));

    let mut buf = blank(Rect::new(0, 0, 30, 2));
    assert_eq!(LogView.render(Rect::new(0, 0, 30, 2), &mut buf, &ring, 5, false), 0);
}

#[test]
fn the_log_keeps_its_newest_lines() {
    let ring = filled_log(log::CAPACITY + 3);
    assert_eq!(ring.len(), log::CAPACITY);
    assert_eq!(ring.entry(0).text, "line 3");
    assert_eq!(ring.entry(log::CAPACITY - 1).text, format!("line {}", log::CAPACITY + 2));
    assert_eq!(ring.start(), 1_000);
    let n = log::with_entries(&ring, |entries, start| (entries.len(), start));
    assert_eq!(n, (log::CAPACITY, 1_000));
}

#[test]
fn lines_carry_their_level() {
    assert_eq!(log::file_line(Level::Info, "hello"), "[INFO] hello");
    assert_eq!(log::file_line(Level::Warn, "hello"), "[WARN] hello");
    assert_eq!(log::file_line(Level::Error, "hello"), "[ERR ] hello");
    assert_eq!(log::stamp(62_500, 1_000), "01:01 ");
    assert_eq!(log::stamp(0, 1_000), "00:00 ");
    assert_eq!(level_style(Level::Warn).fg, Some(colors::LOG_WARN));
    assert_eq!(level_style(Level::Error).bg, Some(colors::LOG_ERROR_BG));
}

#[test]
fn lifting_changes_the_ground_alone() {
    let area = Rect::new(0, 0, 6, 3);
    let mut buf = blank(area);
    lift(&mut buf, Rect::new(1, 1, 3, 1), (1, 2, 3));
    for y in 0..3 {
        for x in 0..6 {
            let cell = buf.cell((x, y)).unwrap();
            let inside = y == 1 && (1..4).contains(&x);
            assert_eq!(cell.bg == Color::Rgb(1, 2, 3), inside);
            assert_eq!(cell.symbol(), " ");
        }
    }
}

#[test]
fn a_rectangle_knows_its_edges() {
    let r = Rect::new(65_530, 10, 20, 5);
    assert_eq!((r.width, r.right(), r.bottom()), (5, 65_535, 15));
    let inner = Rect::new(2, 3, 10, 5).inner();
    assert_eq!(inner, Rect { x: 3, y: 4, width: 8, height: 3 });
    assert!(Rect::new(0, 0, 1, 5).inner().is_empty());
}

fn text_label(from: i64, to: i64, j: usize, n: usize) -> String {
    format!("{}", from + (to - from) * j as i64 / (n as i64 - 1))
}

#[test]
fn the_screen_holds_every_panel() {
    let area = Rect::new(0, 0, 90, 40);
    let l = divide(area);
    assert_eq!((l.control.width, l.control.height), (30, 18));
    assert_eq!((l.info.y, l.info.height), (18, 9));
    assert_eq!((l.log.y, l.log.height), (27, 12));
    assert_eq!((l.signal.x, l.signal.width, l.signal.height), (30, 60, 39));
    assert_eq!((l.status.y, l.status.height, l.status.width), (39, 1, 90));

    let mut t = Tui::new(states(), vec![58, 63, 197]);
    t.states.log_scroll = 400;
    t.set_status("hello".to_string(), 0);
    let mut signal = SignalView::new(64, 8, &t.states);
    let info = InfoView::new(91_000_000, 2_400_000, 48_000, Health::new());
    let ring = filled_log(20);
    let wording = Wording {
        control: |r: Reading| format!("<{r:?}>"),
        info: |r: InfoReading| match r {
            InfoReading::MegaSamples(rate) => format!("{rate} S/s"),
            other => format!("{other:?}"),
        },
    };
    let scales = Scales {
        db_label: text_label,
        time_label: |from: i64, to: i64, j: usize, n: usize| text_label(from / 10, to / 10, j, n),
        freq_label: |_: i64, _: i64, _: usize, _: usize| "label".to_string(),
        reach: |_: i32, n: usize| n / 2,
        eighths: |_: i32, n: usize| n / 2,
        color: |_: i32| (9u8, 9u8, 9u8),
    };
    let mut buf = blank(area);
    t.draw(area, &mut buf, &mut signal, &info, &ring, &wording, &scales, 10);

    let all: String = (0..40).map(|y| row_text(&buf, y, 90) + "\n").collect();
    for what in ["Control", "Info", "Log", "Spectrum", "<Mhz(91000000)>", "2400000 S/s", "Mhz(90650000)", "48 kHz", "line 0", " hello", "label"] {
        assert!(all.contains(what), "{what} is missing:\n{all}");
    }
    assert_eq!(t.states.log_scroll, 10, "20 lines in 10 rows");
    let water = SignalView::layout(l.signal).water;
    let oldest = format!("{}\u{2524}", -(2 * 33 * water.height as i64) / 10);
    assert!(all.contains(&oldest), "the time axis ends at {oldest}:\n{all}");

    // A terminal of any size is survived.
    for (w, h) in [(0, 0), (1, 1), (10, 3), (33, 20), (200, 60)] {
        let area = Rect::new(0, 0, w, h);
        let mut buf = blank(area);
        t.draw(area, &mut buf, &mut signal, &info, &ring, &wording, &scales, 10);
    }
}

#[test]
fn the_app_starts_at_a_listenable_volume() {
    let mut a = AppStates::new(2_400_000, 48_000, 91_000_000, 197, 300_000, -2);
    assert_eq!(a.volume, 70);
    assert_eq!(a.ppm, -2);
    a.set_mode(TunerMode::from_u8(3));
    assert_eq!(a.mode(), TunerMode::from_u8(3));
}

#[test]
fn a_correction_at_its_end_stops_no_other_key() {
    let mut s = states();
    s.ppm = i32::MIN;
    let mut t = Tui::new(s, vec![]);
    t.on_key(press(KeyCode::Down));
    let o = t.on_key(press(KeyCode::Left));
    assert_eq!(o.signal, Some(CtrlSignal::CenterHz(90_900_000)));
    assert!(t.on_key(press(KeyCode::Char('q'))).quit);
}

#[test]
fn a_long_line_is_cut_off() {
    let mut ring = log::Ring::new(0);
    log::record(&mut ring, Level::Warn, "x".repeat(20_000), 0);
    let area = Rect::new(0, 0, 30, 3);
    let mut buf = blank(area);
    LogView.render(area, &mut buf, &ring, 0, false);
    assert!(row_text(&buf, 1, 30).ends_with("xxx\u{2502}"));
}

#[test]
fn text_that_is_not_seen_stays_in_its_cell() {
    let mut ring = log::Ring::new(0);
    log::record(&mut ring, Level::Info, "abcd\u{200b}".to_string(), 0);
    let area = Rect::new(65_522, 0, 12, 3);
    let mut buf = blank(area);
    LogView.render(area, &mut buf, &ring, 0, false);
    assert_eq!(buf.cell((65_532, 1)).unwrap().symbol(), "d\u{200b}");
}

#[test]
fn panels_keep_their_order_on_a_short_screen() {
    for (w, h) in [(80, 24), (40, 10), (20, 5), (80, 1)] {
        let area = Rect::new(3, 2, w, h);
        let l = divide(area);
        assert_eq!((l.control.x, l.control.y), (3, 2));
        assert_eq!(l.info.y, l.control.bottom());
        assert_eq!(l.log.y, l.info.bottom());
        assert_eq!(l.signal.x, l.control.right());
        assert_eq!(l.status.y, l.signal.bottom());
        assert!(l.log.bottom() <= l.status.y);
    }
    let l = divide(Rect::new(0, 0, 80, 29));
    assert_eq!((l.control.height, l.info.height, l.log.height), (18, 9, 1));
}
