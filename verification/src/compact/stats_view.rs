//! The panel of the compact radio: five settings, and three empty frames.

use ratatui::buffer::Buffer as Screen;
use vstd::prelude::*;

use crate::compact::control_signal::CtrlSignal;
use crate::text::{counted, decimal, lemma_brief, lemma_numbers_are_plain};
use crate::tui::colors;
use crate::tui::control_view::{
    offset, rung, spec_rung, BW_LADDER, FREQ_RANGE, STEP_LADDER,
};
use crate::tui::info_view::{column_views, texts};
use crate::tui::paint::{
    bounds, claimed, draw_block, draw_line, draw_right_line, drawable, fits, lemma_fresh,
    lemma_more, lemma_next, lemma_stays_whole, margin, shows, side_by_side, split_horizontal,
    split_vertical, stacked, taken, whole, words_everything, Chrome, Constraint, Rect, Stroke,
    Style, BOLD,
};
use crate::utils::clamped;

verus! {

pub const GAIN_RANGE: (u32, u32) = (0, 50);

pub const PPM_RANGE: (u32, u32) = (0, 100);

/// How many settings there are.
pub const FIELDS: usize = 5;

/// One adjustable row. [`Field::ALL`] is both the on-screen order and the order
/// the cursor walks.
#[derive(Clone, Copy, Debug, PartialEq, Eq, Structural)]
pub enum Field {
    Freq,
    Step,
    Gain,
    Bw,
    Ppm,
}

/// What a row shows.
#[derive(Clone, Copy, Debug, PartialEq, Eq, Structural)]
pub enum Reading {
    /// A frequency in MHz.
    Mhz(u32),
    /// A width in whichever unit keeps the number short.
    Hz(u32),
    /// Whole dB.
    Db(u32),
    Plain(u32),
}

impl Reading {
    /// The text of a reading, where it is one of whole numbers; frequencies from
    /// a kHz on have a fraction in another unit and are left to the caller.
    pub open spec fn spec_text(self) -> Option<Seq<char>> {
        match self {
            Reading::Mhz(_) => None,
            Reading::Hz(hz) => if hz < 1_000 {
                Some(decimal(hz as nat) + " Hz"@)
            } else {
                None
            },
            Reading::Db(db) => Some(decimal(db as nat) + " dB"@),
            Reading::Plain(n) => Some(decimal(n as nat)),
        }
    }

    /// The text of a reading of whole numbers.
    pub fn text(self) -> (s: Option<String>)
        ensures
            s is Some <==> self.spec_text() is Some,
            s matches Some(t) ==> self.spec_text() == Some(t@),
    {
        match self {
            Reading::Mhz(_) => None,
            Reading::Hz(hz) => {
                if hz < 1_000 {
                    Some(counted(hz as u64, " Hz"))
                } else {
                    None
                }
            },
            Reading::Db(db) => Some(counted(db as u64, " dB")),
            Reading::Plain(n) => {
                let s = counted(n as u64, "");
                proof {
                    reveal_strlit("");
                }
                assert(s@ =~= decimal(n as nat));
                Some(s)
            },
        }
    }

    /// The text is the reading in words: its own where it has one, and what the
    /// function makes of it otherwise.
    pub open spec fn reads<F: Fn(Reading) -> String>(self, other: F, s: String) -> bool {
        match self.spec_text() {
            Some(t) => s@ == t,
            None => call_ensures(other, (self,), s),
        }
    }

    /// The reading in words.
    pub fn words<F: Fn(Reading) -> String>(self, other: &F) -> (s: String)
        requires
            words_everything(*other),
        ensures
            self.reads(*other, s),
            drawable(s@),
    {
        proof {
            match self {
                Reading::Mhz(_) => {},
                Reading::Hz(hz) => {
                    lemma_brief(hz as int);
                    lemma_numbers_are_plain(hz as int);
                },
                Reading::Db(db) => {
                    lemma_brief(db as int);
                    lemma_numbers_are_plain(db as int);
                },
                Reading::Plain(n) => {
                    lemma_brief(n as int);
                    lemma_numbers_are_plain(n as int);
                },
            }
            reveal_strlit(" Hz");
            reveal_strlit(" dB");
        }
        match self.text() {
            Some(s) => s,
            None => other(self),
        }
    }
}

/// The five settings and the cursor.
#[derive(Clone, Copy, Debug, PartialEq, Eq, Structural)]
pub struct TunerView {
    pub center_freq: u32,
    pub step: u32,
    pub gain_db: u32,
    pub bw: u32,
    pub ppm: u32,
    /// Index into [`Field::ALL`].
    pub selected: usize,
}

impl Field {
    pub const ALL: [Field; 5] = [Field::Freq, Field::Step, Field::Gain, Field::Bw, Field::Ppm];

    pub open spec fn spec_label(self) -> Seq<char> {
        match self {
            Field::Freq => "Freq"@,
            Field::Step => "Step"@,
            Field::Gain => "Gain"@,
            Field::Bw => "BW"@,
            Field::Ppm => "PPM"@,
        }
    }

    pub fn label(self) -> (s: &'static str)
        ensures
            s@ == self.spec_label(),
    {
        match self {
            Field::Freq => "Freq",
            Field::Step => "Step",
            Field::Gain => "Gain",
            Field::Bw => "BW",
            Field::Ppm => "PPM",
        }
    }

    /// Labels are short.
    proof fn lemma_label_is_brief(self)
        ensures
            self.spec_label().len() <= 10,
    {
        reveal_strlit("Freq");
        reveal_strlit("Step");
        reveal_strlit("Gain");
        reveal_strlit("BW");
        reveal_strlit("PPM");
    }

    pub open spec fn spec_value(self, v: TunerView) -> Reading {
        match self {
            Field::Freq => Reading::Mhz(v.center_freq),
            Field::Step => Reading::Hz(v.step),
            Field::Gain => Reading::Db(v.gain_db),
            Field::Bw => Reading::Hz(v.bw),
            Field::Ppm => Reading::Plain(v.ppm),
        }
    }

    /// What the row shows.
    pub fn value(self, v: &TunerView) -> (r: Reading)
        ensures
            r == self.spec_value(*v),
    {
        match self {
            Field::Freq => Reading::Mhz(v.center_freq),
            Field::Step => Reading::Hz(v.step),
            Field::Gain => Reading::Db(v.gain_db),
            Field::Bw => Reading::Hz(v.bw),
            Field::Ppm => Reading::Plain(v.ppm),
        }
    }

    /// The state and the signal that one press in direction `dir` leads to.
    pub open spec fn spec_adjust(self, v: TunerView, dir: int) -> (TunerView, Option<CtrlSignal>) {
        match self {
            Field::Freq => {
                let hz = clamped(
                    v.center_freq + v.step * dir,
                    FREQ_RANGE.0 as int,
                    FREQ_RANGE.1 as int,
                ) as u32;
                (TunerView { center_freq: hz, ..v }, Some(CtrlSignal::CenterHz(hz)))
            },
            Field::Step => (TunerView { step: spec_rung(STEP_LADDER@, v.step, dir), ..v }, None),
            Field::Gain => {
                let db = clamped(v.gain_db + dir, GAIN_RANGE.0 as int, GAIN_RANGE.1 as int) as u32;
                (TunerView { gain_db: db, ..v }, Some(CtrlSignal::Gain(db)))
            },
            Field::Bw => {
                let bw = spec_rung(BW_LADDER@, v.bw, dir);
                (TunerView { bw, ..v }, Some(CtrlSignal::Bandwidth(bw)))
            },
            Field::Ppm => {
                let ppm = clamped(v.ppm + dir, PPM_RANGE.0 as int, PPM_RANGE.1 as int) as u32;
                (TunerView { ppm, ..v }, Some(CtrlSignal::Ppm(ppm)))
            },
        }
    }

    /// Apply one press of an arrow; `dir` is -1 or +1. Returns the signal the
    /// controller thread needs, or `None` for what the device never hears about.
    pub fn adjust(self, v: &mut TunerView, dir: i32) -> (sig: Option<CtrlSignal>)
        ensures
            (*final(v), sig) == self.spec_adjust(*old(v), dir as int),
    {
        match self {
            Field::Freq => {
                proof {
                    assert(-0x8000_0000 * 0xffff_ffff <= v.step * dir <= 0x7fff_ffff * 0xffff_ffff)
                        by (nonlinear_arith)
                        requires
                            0 <= v.step <= 0xffff_ffff,
                            -0x8000_0000 <= dir <= 0x7fff_ffff,
                    ;
                }
                let hz: u32 = offset(v.center_freq, v.step as i64 * dir as i64, FREQ_RANGE);
                v.center_freq = hz;
                Some(CtrlSignal::CenterHz(hz))
            },
            Field::Step => {
                v.step = rung(STEP_LADDER.as_slice(), v.step, dir);
                None
            },
            Field::Gain => {
                let db: u32 = offset(v.gain_db, dir as i64, GAIN_RANGE);
                v.gain_db = db;
                Some(CtrlSignal::Gain(db))
            },
            Field::Bw => {
                let bw: u32 = rung(BW_LADDER.as_slice(), v.bw, dir);
                v.bw = bw;
                Some(CtrlSignal::Bandwidth(bw))
            },
            Field::Ppm => {
                let ppm: u32 = offset(v.ppm, dir as i64, PPM_RANGE);
                v.ppm = ppm;
                Some(CtrlSignal::Ppm(ppm))
            },
        }
    }
}

/// A frame without any style.
pub open spec fn bare() -> Chrome {
    Chrome { style: Style::plain(), title_style: Style::plain(), border_style: Style::plain() }
}

fn bare_chrome() -> (c: Chrome)
    ensures
        c == bare(),
{
    Chrome { style: Style::new(), title_style: Style::new(), border_style: Style::new() }
}

/// The columns of a row: marker, label and value.
pub open spec fn tuner_columns() -> Seq<Constraint> {
    seq![Constraint::Length(2), Constraint::Length(5), Constraint::Fill(1)]
}

/// One row for each setting.
pub open spec fn tuner_rows() -> Seq<Constraint> {
    Seq::new(FIELDS as nat, |i: int| Constraint::Length(1))
}

/// How a label and a value are drawn.
pub open spec fn row_styles(focused: bool) -> (Style, Style) {
    if focused {
        (
            Style::ink(colors::FOCUS),
            Style { modifiers: BOLD, ..Style::ink(colors::FOCUS_BRIGHT) },
        )
    } else {
        (Style::ink(colors::LABEL), Style::plain())
    }
}

/// What drawing the first `n` rows amounts to.
pub open spec fn tuner_strokes(
    n: nat,
    selected: int,
    columns: Seq<Seq<Rect>>,
    values: Seq<Seq<char>>,
) -> Seq<Stroke>
    decreases n,
{
    if n == 0 {
        Seq::empty()
    } else {
        let i = n - 1;
        let above = tuner_strokes((n - 1) as nat, selected, columns, values);
        let focused = i == selected;
        let marked = if focused {
            above.push(
                Stroke::Line {
                    text: "\u{25b8}"@,
                    style: Style::ink(colors::FOCUS_BRIGHT),
                    area: columns[i][0],
                },
            )
        } else {
            above
        };
        marked.push(
            Stroke::Line {
                text: Field::ALL@[i].spec_label(),
                style: row_styles(focused).0,
                area: columns[i][1],
            },
        ).push(
            Stroke::RightLine {
                text: values[i],
                style: row_styles(focused).1,
                area: columns[i][2],
            },
        )
    }
}

/// The rows lie in the panel, and their columns in them.
pub open spec fn tuner_laid_out(inner: Rect, rows: Seq<Rect>, columns: Seq<Seq<Rect>>) -> bool {
    &&& stacked(inner, tuner_rows(), rows)
    &&& columns.len() == FIELDS
    &&& forall|i: int|
        0 <= i < FIELDS ==> side_by_side(rows[i], tuner_columns(), #[trigger] columns[i])
}

/// An empty frame.
pub open spec fn frame_stroke(title: Seq<char>, area: Rect) -> Stroke {
    Stroke::Block { title, chrome: bare(), area }
}

/// The screen `after` is the screen `before` with the panel drawn upon it.
pub open spec fn tuner_shown(
    before: Screen,
    after: Screen,
    area: Rect,
    selected: int,
    values: Seq<Seq<char>>,
) -> bool {
    let frame = seq![frame_stroke("Tuner"@, area)];
    if area.spec_inner().spec_is_empty() {
        shows(before, after, frame)
    } else {
        exists|rows: Seq<Rect>, columns: Seq<Seq<Rect>>| #[trigger]
            tuner_laid_out(area.spec_inner(), rows, columns) && shows(
                before,
                after,
                frame + tuner_strokes(FIELDS as nat, selected, columns, values),
            )
    }
}

impl TunerView {
    pub open spec fn wf(self) -> bool {
        self.selected < Field::ALL@.len()
    }

    /// The settings with the cursor on the first.
    pub fn new(center_freq: u32, step: u32, gain_db: u32, bw: u32, ppm: u32) -> (v: Self)
        ensures
            v == (TunerView { center_freq, step, gain_db, bw, ppm, selected: 0 }),
            v.wf(),
    {
        TunerView { center_freq, step, gain_db, bw, ppm, selected: 0 }
    }

    /// The cursor after a move: around the ends.
    pub open spec fn spec_select(self, dir: int) -> Self {
        TunerView {
            selected: ((self.selected + if dir > 0 {
                1int
            } else {
                4int
            }) % 5) as usize,
            ..self
        }
    }

    /// Move the cursor. Wraps, unlike the value ladders.
    pub fn select(&mut self, dir: i32)
        requires
            old(self).wf(),
        ensures
            final(self).wf(),
            *final(self) == old(self).spec_select(dir as int),
    {
        let n: usize = Field::ALL.len();
        let delta: usize = if dir > 0 {
            1
        } else {
            n - 1
        };
        self.selected = (self.selected + delta) % n;
    }

    /// Adjust the row under the cursor.
    pub fn adjust(&mut self, dir: i32) -> (sig: Option<CtrlSignal>)
        requires
            old(self).wf(),
        ensures
            (*final(self), sig) == Field::ALL@[old(self).selected as int].spec_adjust(
                *old(self),
                dir as int,
            ),
            final(self).wf(),
    {
        let f = Field::ALL[self.selected];
        f.adjust(self, dir)
    }

    /// Draw the rows, whose columns have been laid out.
    pub fn paint_rows(&self, buf: &mut Screen, columns: &Vec<Vec<Rect>>, values: &Vec<String>)
        requires
            whole(*old(buf)),
            columns@.len() == FIELDS,
            forall|i: int| 0 <= i < FIELDS ==> (#[trigger] columns@[i])@.len() == 3,
            forall|i: int, j: int|
                0 <= i < FIELDS && 0 <= j < 3 ==> margin(
                    #[trigger] columns@[i]@[j],
                    bounds(*old(buf)),
                ),
            values@.len() == FIELDS,
            forall|i: int| 0 <= i < FIELDS ==> drawable((#[trigger] values@[i])@),
        ensures
            shows(
                *old(buf),
                *final(buf),
                tuner_strokes(
                    FIELDS as nat,
                    self.selected as int,
                    column_views(columns@),
                    texts(values@),
                ),
            ),
    {
        let ghost start = *buf;
        let ghost laid = column_views(columns@);
        let ghost words = texts(values@);
        let ghost at = self.selected as int;
        let mut i: usize = 0;
        proof {
            lemma_fresh(start);
            reveal_strlit("\u{25b8}");
        }
        while i < FIELDS
            invariant
                i <= FIELDS,
                at == self.selected,
                whole(start),
                whole(*buf),
                columns@.len() == FIELDS,
                forall|i: int| 0 <= i < FIELDS ==> (#[trigger] columns@[i])@.len() == 3,
                forall|i: int, j: int|
                    0 <= i < FIELDS && 0 <= j < 3 ==> margin(
                        #[trigger] columns@[i]@[j],
                        bounds(*buf),
                    ),
                values@.len() == FIELDS,
                forall|i: int| 0 <= i < FIELDS ==> drawable((#[trigger] values@[i])@),
                "\u{25b8}"@.len() == 1,
                words == texts(values@),
                laid == column_views(columns@),
                shows(start, *buf, tuner_strokes(i as nat, at, laid, words)),
            decreases FIELDS - i,
        {
            let ghost mut done = tuner_strokes(i as nat, at, laid, words);
            let f = Field::ALL[i];
            let marker: Rect = columns[i][0];
            let label: Rect = columns[i][1];
            let value: Rect = columns[i][2];
            proof {
                f.lemma_label_is_brief();
                assert(laid[i as int] == columns@[i as int]@);
            }
            let focused = i == self.selected;
            let label_style = Style::new().fg(
                if focused {
                    colors::FOCUS
                } else {
                    colors::LABEL
                },
            );
            let value_style = if focused {
                Style { fg: Some(colors::FOCUS_BRIGHT), bg: None, modifiers: BOLD }
            } else {
                Style::new()
            };
            if focused {
                let ghost before = *buf;
                draw_line(buf, "\u{25b8}", Style::new().fg(colors::FOCUS_BRIGHT), marker);
                proof {
                    let stroke = Stroke::Line {
                        text: "\u{25b8}"@,
                        style: Style::ink(colors::FOCUS_BRIGHT),
                        area: marker,
                    };
                    lemma_next(start, before, *buf, done, stroke);
                    done = done.push(stroke);
                }
            }
            let ghost before = *buf;
            draw_line(buf, f.label(), label_style, label);
            let ghost between = *buf;
            let ghost first = Stroke::Line {
                text: f.spec_label(),
                style: label_style,
                area: label,
            };
            proof {
                lemma_next(start, before, between, done, first);
            }
            draw_right_line(buf, values[i].as_str(), value_style, value);
            proof {
                let second = Stroke::RightLine {
                    text: words[i as int],
                    style: value_style,
                    area: value,
                };
                lemma_next(start, between, *buf, done.push(first), second);
                assert(tuner_strokes((i + 1) as nat, at, laid, words) == done.push(first).push(
                    second,
                ));
            }
            i += 1;
        }
    }

    /// The texts are the values of all the settings in words.
    pub open spec fn worded<F: Fn(Reading) -> String>(
        self,
        other: F,
        values: Seq<String>,
    ) -> bool {
        &&& values.len() == FIELDS
        &&& forall|i: int|
            0 <= i < FIELDS ==> Field::ALL@[i].spec_value(self).reads(other, #[trigger] values[i])
    }

    /// The values of all the settings in words.
    pub fn values<F: Fn(Reading) -> String>(&self, other: &F) -> (values: Vec<String>)
        requires
            words_everything(*other),
        ensures
            self.worded(*other, values@),
            forall|i: int| 0 <= i < FIELDS ==> drawable((#[trigger] values@[i])@),
    {
        let mut values: Vec<String> = Vec::new();
        while values.len() < FIELDS
            invariant
                values.len() <= FIELDS,
                words_everything(*other),
                forall|i: int|
                    0 <= i < values.len() ==> Field::ALL@[i].spec_value(*self).reads(
                        *other,
                        #[trigger] values@[i],
                    ),
                forall|i: int|
                    0 <= i < values.len() ==> drawable((#[trigger] values@[i])@),
            decreases FIELDS - values.len(),
        {
            values.push(Field::ALL[values.len()].value(self).words(other));
        }
        values
    }

    /// Draw the panel: every setting with its value in words.
    pub fn render<F: Fn(Reading) -> String>(&self, area: Rect, buf: &mut Screen, other: &F)
        requires
            whole(*old(buf)),
            margin(area, bounds(*old(buf))),
            words_everything(*other),
        ensures
            exists|values: Seq<String>| #[trigger]
                self.worded(*other, values) && tuner_shown(
                    *old(buf),
                    *final(buf),
                    area,
                    self.selected as int,
                    texts(values),
                ),
    {
        let values = self.values(other);
        let ghost start = *buf;
        let inner = area.inner();
        proof {
            reveal_strlit("Tuner");
        }
        frame(buf, "Tuner", area);
        if inner.is_empty() {
            return;
        }
        let mut heights: Vec<Constraint> = Vec::new();
        while heights.len() < FIELDS
            invariant
                heights.len() <= FIELDS,
                forall|i: int| 0 <= i < heights.len() ==> heights@[i] == Constraint::Length(1),
            decreases FIELDS - heights.len(),
        {
            heights.push(Constraint::Length(1));
        }
        assert(heights@ =~= tuner_rows());
        let mut cs: Vec<Constraint> = Vec::new();
        cs.push(Constraint::Length(2));
        cs.push(Constraint::Length(5));
        cs.push(Constraint::Fill(1));
        assert(cs@ =~= tuner_columns());
        let rows = split_vertical(inner, &heights);
        let mut columns: Vec<Vec<Rect>> = Vec::new();
        while columns.len() < FIELDS
            invariant
                columns.len() <= FIELDS,
                rows@.len() == FIELDS,
                cs@ == tuner_columns(),
                forall|j: int|
                    0 <= j < columns.len() ==> side_by_side(
                        rows@[j],
                        tuner_columns(),
                        (#[trigger] columns@[j])@,
                    ),
            decreases FIELDS - columns.len(),
        {
            let parts = split_horizontal(rows[columns.len()], &cs);
            columns.push(parts);
        }
        let ghost framed = *buf;
        self.paint_rows(buf, &columns, &values);
        proof {
            let laid = column_views(columns@);
            assert forall|i: int| 0 <= i < FIELDS implies side_by_side(
                rows@[i],
                tuner_columns(),
                #[trigger] laid[i],
            ) by {
                assert(laid[i] == columns@[i]@);
            }
            assert(tuner_laid_out(inner, rows@, laid));
            lemma_more(
                start,
                framed,
                *buf,
                seq![frame_stroke("Tuner"@, area)],
                tuner_strokes(FIELDS as nat, self.selected as int, laid, texts(values@)),
            );
        }
    }
}

/// Draw an empty frame.
fn frame(buf: &mut Screen, title: &str, area: Rect)
    requires
        whole(*old(buf)),
        title@.len() <= 1000,
    ensures
        shows(*old(buf), *final(buf), seq![frame_stroke(title@, area)]),
        whole(*final(buf)),
{
    let ghost start = *buf;
    draw_block(buf, title, bare_chrome(), area);
    proof {
        lemma_fresh(start);
        lemma_next(start, start, *buf, Seq::empty(), frame_stroke(title@, area));
        assert(Seq::<Stroke>::empty().push(frame_stroke(title@, area)) =~= seq![
            frame_stroke(title@, area),
        ]);
    }
}

/// The whole column: the settings, and frames for what is to come.
pub struct StatsView {
    pub tuner_view: TunerView,
}

impl StatsView {
    pub fn new(center_freq: u32, step: u32, gain_db: u32, bw: u32, ppm: u32) -> (v: Self)
        ensures
            v.tuner_view == (TunerView { center_freq, step, gain_db, bw, ppm, selected: 0 }),
            v.tuner_view.wf(),
    {
        StatsView { tuner_view: TunerView::new(center_freq, step, gain_db, bw, ppm) }
    }

    /// Move the cursor by one.
    pub fn select(&mut self, dir: i32)
        requires
            old(self).tuner_view.wf(),
        ensures
            final(self).tuner_view.wf(),
            final(self).tuner_view == old(self).tuner_view.spec_select(dir as int),
    {
        self.tuner_view.select(dir);
    }

    /// Adjust the focused setting, handing back whatever the controller thread
    /// needs to hear about.
    pub fn adjust(&mut self, dir: i32) -> (sig: Option<CtrlSignal>)
        requires
            old(self).tuner_view.wf(),
        ensures
            (final(self).tuner_view, sig) == Field::ALL@[
                old(self).tuner_view.selected as int
            ].spec_adjust(old(self).tuner_view, dir as int),
            final(self).tuner_view.wf(),
    {
        self.tuner_view.adjust(dir)
    }

    /// Draw the column: four parts of the same height.
    pub fn render<F: Fn(Reading) -> String>(&self, area: Rect, buf: &mut Screen, other: &F)
        requires
            whole(*old(buf)),
            margin(area, bounds(*old(buf))),
            words_everything(*other),
        ensures
            exists|parts: Seq<Rect>, values: Seq<String>, mid: Screen| #[trigger]
                stacked(area, quarters(), parts) && self.tuner_view.worded(*other, values)
                    && #[trigger] tuner_shown(
                    *old(buf),
                    mid,
                    parts[0],
                    self.tuner_view.selected as int,
                    texts(values),
                ) && shows(mid, *final(buf), other_frames(parts)),
    {
        let mut cs: Vec<Constraint> = Vec::new();
        while cs.len() < 4
            invariant
                cs.len() <= 4,
                forall|i: int| 0 <= i < cs.len() ==> cs@[i] == Constraint::Percentage(25),
            decreases 4 - cs.len(),
        {
            cs.push(Constraint::Percentage(25));
        }
        assert(cs@ =~= quarters());
        let parts = split_vertical(area, &cs);
        let ghost start = *buf;
        self.tuner_view.render(parts[0], buf, other);
        let ghost mid = *buf;
        let ghost values = choose|values: Seq<String>| #[trigger]
            self.tuner_view.worded(*other, values) && tuner_shown(
                start,
                mid,
                parts@[0],
                self.tuner_view.selected as int,
                texts(values),
            );
        proof {
            lemma_tuner_whole(
                start,
                mid,
                parts@[0],
                self.tuner_view.selected as int,
                texts(values),
            );
            reveal_strlit("Info");
            reveal_strlit("Mode");
            reveal_strlit("Shortcut");
        }
        frame(buf, "Info", parts[1]);
        let ghost one = *buf;
        frame(buf, "Mode", parts[2]);
        let ghost two = *buf;
        frame(buf, "Shortcut", parts[3]);
        proof {
            let a = seq![frame_stroke("Info"@, parts@[1])];
            let b = seq![frame_stroke("Mode"@, parts@[2])];
            let c = seq![frame_stroke("Shortcut"@, parts@[3])];
            lemma_more(mid, one, two, a, b);
            lemma_more(mid, two, *buf, a + b, c);
            assert(a + b + c =~= other_frames(parts@));
        }
    }
}

/// Four parts of the same height.
pub open spec fn quarters() -> Seq<Constraint> {
    Seq::new(4, |i: int| Constraint::Percentage(25))
}

/// The four parts stand one below the other, the settings first, each a quarter of
/// the rows high, to the nearest row.
pub proof fn quarters_are_quarters(area: Rect, parts: Seq<Rect>, i: int)
    requires
        stacked(area, quarters(), parts),
        area.y + area.height <= u16::MAX,
        0 <= i < 4,
    ensures
        parts[i].y == area.y + (25 * i * area.height + 50) / 100,
        parts[i].y + parts[i].height == area.y + (25 * (i + 1) * area.height + 50) / 100,
{
    let cs = quarters();
    let h = area.spec_bottom() - area.y;
    reveal_with_fuel(claimed, 5);
    reveal_with_fuel(taken, 5);
    assert(cs.drop_last() =~= Seq::new(3, |i: int| Constraint::Percentage(25)));
    assert(cs.drop_last().drop_last() =~= Seq::new(2, |i: int| Constraint::Percentage(25)));
    assert(cs.drop_last().drop_last().drop_last() =~= Seq::new(
        1,
        |i: int| Constraint::Percentage(25),
    ));
    assert(cs.drop_last().drop_last().drop_last().drop_last() =~= Seq::<Constraint>::empty());
    assert(claimed(cs, h) == 100 * h);
    assert(fits(cs, h));
    assert(taken(cs, h, 1) == 25 * h && taken(cs, h, 2) == 50 * h);
    assert(taken(cs, h, 3) == 75 * h && taken(cs, h, 4) == 100 * h);
    assert(taken(cs, h, i) == 25 * i * h && taken(cs, h, i + 1) == 25 * (i + 1) * h);
}

/// The frames below the settings.
pub open spec fn other_frames(parts: Seq<Rect>) -> Seq<Stroke> {
    seq![
        frame_stroke("Info"@, parts[1]),
        frame_stroke("Mode"@, parts[2]),
        frame_stroke("Shortcut"@, parts[3]),
    ]
}

/// A screen stays whole under the panel.
proof fn lemma_tuner_whole(
    before: Screen,
    after: Screen,
    area: Rect,
    selected: int,
    values: Seq<Seq<char>>,
)
    requires
        whole(before),
        tuner_shown(before, after, area, selected, values),
    ensures
        whole(after),
{
    lemma_stays_whole(before, after);
}

} // verus!
