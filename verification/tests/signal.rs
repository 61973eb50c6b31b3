use ferrite::tui::axes::{freq_col, freq_marks, vaxis_marks, widest};
use ferrite::tui::colors;
use ferrite::tui::paint::{blank, Rect};
use ferrite::tui::plot::{dot_lit, eighth_block};
use ferrite::tui::signal_view::{Scales, SignalView, SpectrumStyle, Y_AXIS_WIDTH};
use ferrite::tui::tui::FRAME;
use ferrite::tui::tui_states::TuiStates;
use ratatui::buffer::Buffer;
use ratatui::style::Color;

const BINS: usize = 64;
const FLOOR: f32 = -90.0;
const CEIL: f32 = 0.0;

fn rgb(c: (u8, u8, u8)) -> Color {
    Color::Rgb(c.0, c.1, c.2)
}

/// A magnitude in hundredths of a dB.
fn level(db: f32) -> i32 {
    (db * 100.0) as i32
}

fn fraction(level: i32) -> f32 {
    let db = (level as f32 / 100.0).clamp(FLOOR, CEIL);
    (db - FLOOR) / (CEIL - FLOOR)
}

fn reach(level: i32, rows: usize) -> usize {
    (fraction(level) * rows as f32).round() as usize
}

fn eighths(level: i32, steps: usize) -> usize {
    (fraction(level) * steps as f32) as usize
}

fn grey(level: i32) -> (u8, u8, u8) {
    let v = (fraction(level) * 255.0) as u8;
    (v, v, v)
}

fn between(from: i64, to: i64, j: usize, n: usize) -> f32 {
    from as f32 + (to - from) as f32 * (j as f32 / (n - 1) as f32)
}

fn db_label(from: i64, to: i64, j: usize, n: usize) -> String {
    format!("{:.0}", between(from, to, j, n))
}

fn time_label(from: i64, to: i64, j: usize, n: usize) -> String {
    format!("{:.1}", between(from, to, j, n) / 1000.0)
}

fn freq_label(from: i64, to: i64, j: usize, n: usize) -> String {
    let halves = from as f64 + (to - from) as f64 * (j as f64 / (n - 1) as f64);
    format!("{:.3}", halves / 2e6)
}

fn states() -> TuiStates {
    TuiStates::new(
        2_400_000,
        48_000,
        91_000_000,
        91_350_000,
        100_000,
        0,
        300_000,
        0,
        FLOOR as i32,
        CEIL as i32,
    )
}

/// A view holding one flat spectrum at `db`, ready to render.
fn view_at(db: f32) -> SignalView {
    let mut v = SignalView::new(BINS, 8, &states());
    v.push(&vec![level(db); BINS]);
    v.commit();
    v
}

/// Render one terminal row and return the glyphs across it.
fn glyphs(v: &SignalView, width: u16, trace: bool) -> Vec<char> {
    let area = Rect::new(0, 0, width, 1);
    let mut buf = blank(area);
    v.render_spectrum_braille(area, &mut buf, trace, &reach, &grey);
    (0..width)
        .map(|x| buf.cell((x, 0)).unwrap().symbol().chars().next().unwrap())
        .collect()
}

/// Read one row of the buffer back as a string.
fn row_text(buf: &Buffer, y: u16, width: u16) -> String {
    (0..width).map(|x| buf.cell((x, y)).unwrap().symbol()).collect()
}

#[test]
fn dot_table_is_the_right_way_up() {
    assert_eq!(glyphs(&view_at(FLOOR), 4, false), vec!['\u{28C0}'; 4]);
    assert_eq!(glyphs(&view_at(CEIL), 4, false), vec!['\u{28FF}'; 4]);
    assert_eq!(glyphs(&view_at(CEIL), 4, true), vec!['\u{2809}'; 4]);
}

#[test]
fn the_floor_draws_a_baseline_not_a_blank() {
    for g in glyphs(&view_at(FLOOR - 20.0), 4, false) {
        assert_ne!(g, ' ', "a signal below the floor still needs a baseline");
        assert_ne!(g, '\u{2800}', "and it must not be the blank pattern");
    }
}

#[test]
fn the_db_axis_runs_floor_at_the_bottom() {
    let v = view_at(FLOOR);
    let (w, h) = (5, 7);
    let area = Rect::new(0, 0, w, h);
    let mut buf = blank(area);
    v.render_spectrum_yaxis(area, &mut buf, &db_label);

    assert_eq!(row_text(&buf, 0, w), "   0\u{2524}", "ceiling tops the axis");
    assert_eq!(row_text(&buf, h - 1, w), " -90\u{2524}", "floor sits on the last row");
}

#[test]
fn a_short_axis_thins_labels_instead_of_overwriting() {
    let v = view_at(FLOOR);
    let (w, h) = (5, 4);
    let area = Rect::new(0, 0, w, h);
    let mut buf = blank(area);
    v.render_spectrum_yaxis(area, &mut buf, &db_label);

    assert_eq!(row_text(&buf, 0, w), "   0\u{2524}");
    assert_eq!(row_text(&buf, h - 1, w), " -90\u{2524}");

    for y in 0..h {
        let t = row_text(&buf, y, w);
        assert!(t.ends_with('\u{2524}'), "row {y} has no tick: {t:?}");
    }
}

#[test]
fn the_time_axis_runs_newest_at_the_top() {
    let mut v = view_at(FLOOR);
    v.set_waterfall_height(12);
    v.gen_water_yaxis_label(true);

    let (w, h) = (5, 12);
    let area = Rect::new(0, 0, w, h);
    let mut buf = blank(area);
    v.render_water_yaxis(area, &mut buf, &time_label);

    assert_eq!(row_text(&buf, 0, w), " 0.0\u{2524}", "the newest row is now, at the top");

    let oldest = -12.0 * 2.0 * (FRAME as f32 / 1000.0);
    assert_eq!(
        row_text(&buf, h - 1, w),
        format!("{:>4}\u{2524}", format!("{oldest:.1}")),
        "the bottom row is the whole visible history ago"
    );
}

#[test]
fn the_layout_reports_the_waterfall_not_the_panel() {
    let area = Rect::new(0, 0, 60, 20);
    let l = SignalView::layout(area);

    assert!(
        l.water.height < area.height,
        "waterfall {} should be shorter than the panel {}",
        l.water.height,
        area.height
    );
    assert_eq!(l.water.height, 12);
    assert_eq!(l.water_axis.height, l.water.height, "gutter tracks the plot");
    assert_eq!(l.water_axis.width, Y_AXIS_WIDTH);
}

#[test]
fn the_frequency_labels_sit_on_the_plot_edges() {
    for w in [60u16, 44, 34, 26] {
        let area = Rect::new(0, 0, w, 12);
        let v = SignalView::new(BINS, 8, &states());

        let l = SignalView::layout(area);
        let mut buf = blank(area);
        v.render_mhz_axis(l.freq_axis, &mut buf, &freq_label);

        let row = row_text(&buf, l.freq_axis.y, w);
        let first = row.find(|c: char| !c.is_whitespace()).unwrap();
        let last = row.rfind(|c: char| !c.is_whitespace()).unwrap();

        assert_eq!(
            first, l.freq_axis.x as usize,
            "w={w}: first label is not flush with the plot's left edge: {row:?}"
        );
        assert_eq!(
            last,
            (l.freq_axis.right() - 1) as usize,
            "w={w}: last label is not flush with the right edge: {row:?}"
        );

        assert!(row.contains("89.800") && row.contains("92.200"), "w={w}: {row:?}");
    }
}

#[test]
fn frequency_labels_never_run_together() {
    for w in 20u16..80 {
        let area = Rect::new(0, 0, w, 12);
        let v = SignalView::new(BINS, 8, &states());

        let l = SignalView::layout(area);
        let mut buf = blank(area);
        v.render_mhz_axis(l.freq_axis, &mut buf, &freq_label);

        let row = row_text(&buf, l.freq_axis.y, w);
        for chunk in row.split_whitespace() {
            assert_eq!(
                chunk.len(),
                6,
                "w={w}: two labels ran together as {chunk:?} in {row:?}"
            );
        }
    }
}

#[test]
fn an_axis_too_small_to_read_draws_nothing() {
    let v = view_at(FLOOR);
    for (w, h) in [(5u16, 1u16), (5, 0), (1, 7), (0, 7)] {
        let area = Rect::new(0, 0, w, h);
        let mut buf = blank(Rect::new(0, 0, w.max(1), h.max(1)));
        let before = buf.clone();
        v.render_spectrum_yaxis(area, &mut buf, &db_label);
        assert_eq!(buf, before);
    }
}

#[test]
fn a_narrow_carrier_lands_in_one_half_of_a_cell() {
    let mut v = view_at(FLOOR);
    let mut row = vec![level(FLOOR); BINS];
    row[18] = level(CEIL);
    v.push(&row);
    v.commit();

    let g = glyphs(&v, 4, false);
    assert_eq!(g[1], '\u{28C7}', "carrier should fill only the left dots");
    assert_eq!(g[0], '\u{28C0}', "and leave its neighbours at the floor");
}

#[test]
fn the_cursors_mark_the_centre_and_the_channel() {
    const CENTER: u32 = 90_650_000;
    const TUNED: u32 = 91_000_000;
    const FS: u32 = 2_400_000;

    let mut s = states();
    s.center_freq = CENTER;
    s.tuned_freq = TUNED;
    s.sample_rate = FS;
    let mut v = SignalView::new(BINS, 8, &s);
    v.push(&vec![level(FLOOR); BINS]);
    v.commit();

    let area = Rect::new(0, 0, 60, 20);
    let l = SignalView::layout(area);
    let mut buf = blank(area);
    let scales = Scales { db_label, time_label, freq_label, reach, eighths, color: grey };
    v.render(area, &mut buf, &s, &scales);

    let w = l.spec.width as f32;
    let mid = (0.5 * w) as u16;
    let off = ((TUNED - CENTER) as f32 / FS as f32 + 0.5) * w;
    let chan = off as u16;
    assert!(chan > mid, "the channel is above the centre, so it draws right of it");

    for (x, colour, what) in [
        (mid, colors::CURSOR_CENTER, "centre"),
        (chan, colors::CURSOR_TUNED, "channel"),
    ] {
        for (pane, name) in [(l.spec, "spectrum"), (l.water, "waterfall")] {
            let cell = buf.cell((pane.x + x, pane.y)).unwrap();
            assert_eq!(
                cell.symbol(),
                "\u{2502}",
                "{what} cursor missing from the {name} at column {x}"
            );
            assert_eq!(cell.fg, rgb(colour), "{what} cursor is the wrong colour in the {name}");
        }
    }

    // The frame and every axis are there too.
    let top = row_text(&buf, 0, 60);
    assert!(top.contains("Spectrum \u{b7} MHz"), "{top:?}");
    assert_eq!(buf.cell((0, 0)).unwrap().bg, rgb(colors::BG_WELL));
    assert!(row_text(&buf, l.freq_axis.y, 60).contains("89.450"));
}

#[test]
fn of_two_cursors_on_one_column_the_centre_is_seen() {
    let mut s = states();
    s.tuned_freq = s.center_freq;
    let v = SignalView::new(BINS, 8, &s);
    let area = Rect::new(0, 0, 60, 20);
    let l = SignalView::layout(area);
    let mut buf = blank(area);
    let scales = Scales { db_label, time_label, freq_label, reach, eighths, color: grey };
    v.render(area, &mut buf, &s, &scales);
    let cell = buf.cell((l.spec.x + l.spec.width / 2, l.spec.y)).unwrap();
    assert_eq!(cell.fg, rgb(colors::CURSOR_CENTER));
}

#[test]
fn columns_follow_the_frequency() {
    assert_eq!(freq_col(91_000_000, 53, 91_000_000, 2_400_000), Some(26));
    assert_eq!(freq_col(89_800_000, 53, 91_000_000, 2_400_000), Some(0));
    assert_eq!(freq_col(92_199_999, 53, 91_000_000, 2_400_000), Some(52));
    assert_eq!(freq_col(92_200_000, 53, 91_000_000, 2_400_000), None);
    assert_eq!(freq_col(89_799_999, 53, 91_000_000, 2_400_000), None);
    assert_eq!(freq_col(91_000_000, 0, 91_000_000, 2_400_000), None);
    assert_eq!(freq_col(91_000_000, 53, 91_000_000, 0), None);
}

#[test]
fn as_many_labels_as_fit() {
    assert_eq!(freq_marks(53, 6), 6);
    assert_eq!(freq_marks(27, 6), 3);
    assert_eq!(freq_marks(11, 6), 2);
    assert_eq!(freq_marks(10, 6), 0);
    assert_eq!(freq_marks(5, 6), 0);
    assert_eq!(freq_marks(50, 0), 0);
    assert_eq!(vaxis_marks(Rect::new(0, 0, 5, 30)), 6);
    assert_eq!(vaxis_marks(Rect::new(0, 0, 5, 3)), 3);
    assert_eq!(vaxis_marks(Rect::new(0, 0, 1, 30)), 0);
    assert_eq!(widest(&vec!["a".to_string(), "abc".to_string(), "ab".to_string()]), 3);
}

#[test]
fn a_row_holds_the_peaks_of_its_frame() {
    let mut v = SignalView::new(4, 2, &states());
    v.push(&[level(-80.0), level(-10.0), level(-80.0), level(-80.0)]);
    v.push(&[level(-80.0), level(-70.0), level(-5.0)]);
    v.commit();
    let area = Rect::new(0, 0, 4, 1);
    let mut buf = blank(area);
    v.render_waterfall(area, &mut buf, &grey);
    let fg: Vec<Color> = (0..4).map(|x| buf.cell((x, 0)).unwrap().fg).collect();
    assert_eq!(
        fg,
        vec![
            rgb(grey(level(-80.0))),
            rgb(grey(level(-10.0))),
            rgb(grey(level(-5.0))),
            rgb(grey(level(-80.0))),
        ]
    );
    for x in 0..4 {
        let cell = buf.cell((x, 0)).unwrap();
        assert_eq!(cell.symbol(), "\u{2580}");
        assert_eq!(cell.bg, rgb(colors::WATERFALL_EMPTY), "there is no second row yet");
    }
}

#[test]
fn a_stalled_radio_freezes_the_display() {
    let mut v = view_at(-45.0);
    let area = Rect::new(0, 0, 8, 2);
    let mut first = blank(area);
    v.render_waterfall(area, &mut first, &grey);
    v.commit();
    let mut second = blank(area);
    v.render_waterfall(area, &mut second, &grey);
    assert_eq!(first, second);
}

#[test]
fn the_history_is_bounded_and_newest_first() {
    let mut v = SignalView::new(2, 3, &states());
    for db in [-80.0, -60.0, -40.0, -20.0] {
        v.push(&[level(db), level(db)]);
        v.commit();
    }
    let area = Rect::new(0, 0, 2, 2);
    let mut buf = blank(area);
    v.render_waterfall(area, &mut buf, &grey);
    let cell = |y| buf.cell((0, y)).unwrap();
    assert_eq!(cell(0).fg, rgb(grey(level(-20.0))));
    assert_eq!(cell(0).bg, rgb(grey(level(-40.0))));
    assert_eq!(cell(1).fg, rgb(grey(level(-60.0))));
    assert_eq!(cell(1).bg, rgb(colors::WATERFALL_EMPTY), "the oldest row is gone");
}

#[test]
fn blocks_fill_by_eighths() {
    let mut v = SignalView::new(1, 3, &states());
    // 11 eighths of two cells: a full block and three eighths.
    v.push(&[level(FLOOR + 90.0 * 11.5 / 16.0)]);
    v.commit();
    let area = Rect::new(0, 0, 1, 2);
    let mut buf = blank(area);
    v.render_spectrum_blocks(area, &mut buf, &eighths, &grey);
    assert_eq!(buf.cell((0, 1)).unwrap().symbol(), "\u{2588}");
    assert_eq!(buf.cell((0, 0)).unwrap().symbol(), "\u{2583}");
    for part in 1..=8usize {
        assert_eq!(eighth_block(part) as u32, 0x2580 + part as u32);
    }
}

#[test]
fn a_trace_is_joined_up() {
    let tops = vec![1usize, 5, 2];
    let lit: Vec<Vec<bool>> = (0..3)
        .map(|sx| (0..8).map(|y| dot_lit(&tops, sx, y, true)).collect())
        .collect();
    assert_eq!(lit[0], vec![false, true, false, false, false, false, false, false]);
    assert_eq!(lit[1], vec![false, true, true, true, true, true, false, false]);
    assert_eq!(lit[2], vec![false, false, true, true, true, true, false, false]);
    assert!(dot_lit(&tops, 0, 7, false));
    assert!(!dot_lit(&tops, 1, 4, false));
}

#[test]
fn the_style_goes_round() {
    let mut v = SignalView::new(4, 2, &states());
    assert_eq!(v.cycle_style(), SpectrumStyle::BrailleTrace);
    assert_eq!(v.cycle_style(), SpectrumStyle::Blocks);
    assert_eq!(v.cycle_style(), SpectrumStyle::BrailleFill);
    assert_eq!(SpectrumStyle::Blocks.label(), "blocks");
    assert_eq!(SpectrumStyle::BrailleFill.label(), "braille fill");
    assert_eq!(SpectrumStyle::BrailleTrace.label(), "braille trace");
}

#[test]
fn an_empty_view_draws_no_spectrum() {
    let v = SignalView::new(BINS, 8, &states());
    let area = Rect::new(0, 0, 4, 2);
    let mut buf = blank(area);
    let before = buf.clone();
    v.render_spectrum(area, &mut buf, &reach, &eighths, &grey);
    assert_eq!(buf, before);
}

#[test]
fn axes_follow_the_settings() {
    let mut s = states();
    let mut v = SignalView::new(BINS, 8, &s);
    s.floor_db = -60;
    s.center_freq = 100_000_000;
    v.gen_marked_labels(&s, false);

    let area = Rect::new(0, 0, 5, 3);
    let mut buf = blank(area);
    v.render_spectrum_yaxis(area, &mut buf, &db_label);
    assert_eq!(row_text(&buf, 2, 5), " -60\u{2524}");

    let area = Rect::new(0, 0, 40, 1);
    let mut buf = blank(area);
    v.render_mhz_axis(area, &mut buf, &freq_label);
    let row = row_text(&buf, 0, 40);
    assert!(row.starts_with("98.800") && row.ends_with("101.200"), "{row:?}");
    assert_eq!(buf.cell((0, 0)).unwrap().fg, rgb(colors::LABEL));
}

#[test]
fn the_panes_stand_one_below_the_other() {
    for height in 4..80u16 {
        let area = Rect::new(2, 5, 60, height);
        let l = SignalView::layout(area);
        let inner = height - 2;
        assert_eq!((l.spec.y, l.spec.height), (6, (30 * inner + 50) / 100), "height {height}");
        assert_eq!((l.freq_axis.y, l.freq_axis.height), (l.spec.bottom(), 1));
        assert_eq!((l.water.y, l.water.bottom()), (l.freq_axis.bottom(), area.bottom() - 1));
    }
}
