//! The Info panel: everything the radio reports.
//!
//! Nothing here is settable. A measurement that nothing has written yet is a
//! dash, so that the panel never claims the radio is healthy on the strength of
//! an uninitialised counter.

use ratatui::buffer::Buffer as Screen;
use vstd::prelude::*;
use vstd::string::StringExecFns;

use crate::source::{lo_of, OFFSET_TUNING_HZ};
use crate::text::{
    counted, decimal, lemma_brief, lemma_numbers_are_plain, measured_tenths, plain, push_decimal,
    tenths,
};
use crate::tui::colors;
use crate::tui::paint::{
    bounds, draw_block, draw_line, draw_right_line, drawable, lemma_fresh, lemma_more, lemma_next,
    margin, shows, side_by_side, split_horizontal, split_vertical, stacked, whole, words_everything,
    Constraint, Rect, Stroke, Style,
};
use crate::tui::tui_states::{Health, UNMEASURED};

verus! {

/// Rows plus border.
pub const HEIGHT: u16 = 9;

/// How many rows there are.
pub const ROWS: usize = 7;

/// What a row shows.
#[derive(Clone, Copy, Debug, PartialEq, Eq, Structural)]
pub enum InfoReading {
    /// Samples a second, in millions.
    MegaSamples(u32),
    /// Whole kHz.
    Khz(u32),
    /// A frequency in MHz.
    Mhz(u32),
    /// Tenths of a dBFS, or not measured.
    Dbfs(Option<i32>),
    /// Tenths of a dB, or not measured.
    Db(Option<i32>),
    /// Two counters.
    Pair(u64, u64),
    /// A counter.
    Count(u64),
}

impl InfoReading {
    /// The text of a reading, where it is one of whole numbers or tenths; a rate
    /// in millions is left to the caller. What has not been measured is a dash,
    /// not a confident zero.
    pub open spec fn spec_text(self) -> Option<Seq<char>> {
        match self {
            InfoReading::MegaSamples(_) => None,
            InfoReading::Khz(khz) => Some(decimal(khz as nat) + " kHz"@),
            InfoReading::Mhz(_) => None,
            InfoReading::Dbfs(m) => Some(
                match m {
                    Some(t) => tenths(t as int) + " dBFS"@,
                    None => "\u{2014}"@,
                },
            ),
            InfoReading::Db(m) => Some(
                match m {
                    Some(t) => tenths(t as int) + " dB"@,
                    None => "\u{2014}"@,
                },
            ),
            InfoReading::Pair(a, b) => Some(decimal(a as nat) + " / "@ + decimal(b as nat)),
            InfoReading::Count(n) => Some(decimal(n as nat)),
        }
    }

    /// The text of a reading of whole numbers or tenths.
    pub fn text(self) -> (s: Option<String>)
        ensures
            s is Some <==> self.spec_text() is Some,
            s matches Some(t) ==> self.spec_text() == Some(t@),
    {
        match self {
            InfoReading::MegaSamples(_) => None,
            InfoReading::Khz(khz) => Some(counted(khz as u64, " kHz")),
            InfoReading::Mhz(_) => None,
            InfoReading::Dbfs(m) => Some(
                match m {
                    Some(t) => measured_tenths(t, " dBFS"),
                    None => String::from_str("\u{2014}"),
                },
            ),
            InfoReading::Db(m) => Some(
                match m {
                    Some(t) => measured_tenths(t, " dB"),
                    None => String::from_str("\u{2014}"),
                },
            ),
            InfoReading::Pair(a, b) => {
                let mut s = counted(a, " / ");
                push_decimal(&mut s, b);
                Some(s)
            },
            InfoReading::Count(n) => {
                let s = counted(n, "");
                proof {
                    reveal_strlit("");
                }
                assert(s@ =~= decimal(n as nat));
                Some(s)
            },
        }
    }

    /// The text is the reading in words: its own where it has one, and what the
    /// function makes of it otherwise.
    pub open spec fn reads<F: Fn(InfoReading) -> String>(self, other: F, s: String) -> bool {
        match self.spec_text() {
            Some(t) => s@ == t,
            None => call_ensures(other, (self,), s),
        }
    }

    /// The reading in words.
    pub fn words<F: Fn(InfoReading) -> String>(self, other: &F) -> (s: String)
        requires
            words_everything(*other),
        ensures
            self.reads(*other, s),
            drawable(s@),
    {
        proof {
            self.lemma_text_is_brief();
        }
        match self.text() {
            Some(s) => s,
            None => other(self),
        }
    }

    /// The text of a reading can be drawn: it is no more than two numbers and a unit.
    proof fn lemma_text_is_brief(self)
        ensures
            self.spec_text() matches Some(t) ==> t.len() <= 100 && plain(t),
    {
        match self {
            InfoReading::MegaSamples(_) => {},
            InfoReading::Khz(khz) => {
                lemma_brief(khz as int);
                lemma_numbers_are_plain(khz as int);
                reveal_strlit(" kHz");
            },
            InfoReading::Mhz(_) => {},
            InfoReading::Dbfs(m) => {
                if let Some(t) = m {
                    lemma_brief(t as int);
                lemma_numbers_are_plain(t as int);
                }
                reveal_strlit(" dBFS");
                reveal_strlit("\u{2014}");
            },
            InfoReading::Db(m) => {
                if let Some(t) = m {
                    lemma_brief(t as int);
                lemma_numbers_are_plain(t as int);
                }
                reveal_strlit(" dB");
                reveal_strlit("\u{2014}");
            },
            InfoReading::Pair(a, b) => {
                lemma_brief(a as int);
                lemma_numbers_are_plain(a as int);
                lemma_brief(b as int);
                lemma_numbers_are_plain(b as int);
                reveal_strlit(" / ");
            },
            InfoReading::Count(n) => {
                lemma_brief(n as int);
                lemma_numbers_are_plain(n as int);
            },
        }
    }
}

/// What the panel reports on.
pub struct InfoView {
    pub center_freq: u32,
    pub sample_rate: u32,
    pub audio_rate: u32,
    pub health: Health,
}

/// A measurement, or none where nothing has written it yet.
pub open spec fn spec_measured(tenths: i32) -> Option<i32> {
    if tenths == UNMEASURED {
        None
    } else {
        Some(tenths)
    }
}

/// A measurement, or none where nothing has written it yet.
pub fn measured(tenths: i32) -> (m: Option<i32>)
    ensures
        m == spec_measured(tenths),
{
    if tenths == UNMEASURED {
        None
    } else {
        Some(tenths)
    }
}

/// The label of row `i`.
pub open spec fn info_label(i: int) -> Seq<char> {
    if i == 0 {
        "Rate"@
    } else if i == 1 {
        "Audio"@
    } else if i == 2 {
        "LO"@
    } else if i == 3 {
        "RSSI"@
    } else if i == 4 {
        "SNR"@
    } else if i == 5 {
        "Drop/lap"@
    } else {
        "Underrun"@
    }
}

/// The label of row `i`.
pub fn label(i: usize) -> (s: &'static str)
    ensures
        s@ == info_label(i as int),
        s@.len() <= 10,
{
    proof {
        reveal_strlit("Rate");
        reveal_strlit("Audio");
        reveal_strlit("LO");
        reveal_strlit("RSSI");
        reveal_strlit("SNR");
        reveal_strlit("Drop/lap");
        reveal_strlit("Underrun");
    }
    if i == 0 {
        "Rate"
    } else if i == 1 {
        "Audio"
    } else if i == 2 {
        "LO"
    } else if i == 3 {
        "RSSI"
    } else if i == 4 {
        "SNR"
    } else if i == 5 {
        "Drop/lap"
    } else {
        "Underrun"
    }
}

/// One row for each reading.
pub open spec fn row_heights() -> Seq<Constraint> {
    Seq::new(ROWS as nat, |i: int| Constraint::Length(1))
}

/// The columns of a row: label and value.
pub open spec fn info_columns() -> Seq<Constraint> {
    seq![Constraint::Length(9), Constraint::Fill(1)]
}

/// What drawing the first `n` rows amounts to.
pub open spec fn info_strokes(
    n: nat,
    columns: Seq<Seq<Rect>>,
    values: Seq<Seq<char>>,
) -> Seq<Stroke>
    decreases n,
{
    if n == 0 {
        Seq::empty()
    } else {
        info_strokes((n - 1) as nat, columns, values).push(
            Stroke::Line {
                text: info_label(n - 1),
                style: Style::ink(colors::LABEL),
                area: columns[n - 1][0],
            },
        ).push(
            Stroke::RightLine {
                text: values[n - 1],
                style: Style::ink(colors::TEXT),
                area: columns[n - 1][1],
            },
        )
    }
}

/// The rows lie in the panel, and their columns in them.
pub open spec fn info_laid_out(inner: Rect, rows: Seq<Rect>, columns: Seq<Seq<Rect>>) -> bool {
    &&& stacked(inner, row_heights(), rows)
    &&& columns.len() == ROWS
    &&& forall|i: int|
        0 <= i < ROWS ==> side_by_side(rows[i], info_columns(), #[trigger] columns[i])
}

/// The frame of the panel.
pub open spec fn info_frame(area: Rect) -> Stroke {
    Stroke::Block { title: "Info"@, chrome: colors::card(false), area }
}

/// What drawing the panel amounts to.
pub open spec fn info_panel(
    area: Rect,
    columns: Seq<Seq<Rect>>,
    values: Seq<Seq<char>>,
) -> Seq<Stroke> {
    seq![info_frame(area)] + info_strokes(ROWS as nat, columns, values)
}

/// The texts of a list.
pub open spec fn texts(values: Seq<String>) -> Seq<Seq<char>> {
    values.map_values(|v: String| v@)
}

impl InfoView {
    pub fn new(center_freq: u32, sample_rate: u32, audio_rate: u32, health: Health) -> (v: Self)
        ensures
            v == (InfoView { center_freq, sample_rate, audio_rate, health }),
    {
        InfoView { center_freq, sample_rate, audio_rate, health }
    }

    /// What row `i` shows.
    pub open spec fn spec_reading(&self, i: int) -> InfoReading {
        if i == 0 {
            InfoReading::MegaSamples(self.sample_rate)
        } else if i == 1 {
            InfoReading::Khz(self.audio_rate / 1000)
        } else if i == 2 {
            InfoReading::Mhz(lo_of(self.center_freq))
        } else if i == 3 {
            InfoReading::Dbfs(spec_measured(self.health.rssi_dbfs_x10))
        } else if i == 4 {
            InfoReading::Db(spec_measured(self.health.snr_db_x10))
        } else if i == 5 {
            InfoReading::Pair(self.health.iq_drops, self.health.iq_laps)
        } else {
            InfoReading::Count(self.health.underruns)
        }
    }

    /// What row `i` shows. The LO is parked below the station, so it is never the
    /// tuned frequency, and nothing else on screen says where it is.
    pub fn reading(&self, i: usize) -> (r: InfoReading)
        ensures
            r == self.spec_reading(i as int),
    {
        if i == 0 {
            InfoReading::MegaSamples(self.sample_rate)
        } else if i == 1 {
            InfoReading::Khz(self.audio_rate / 1000)
        } else if i == 2 {
            InfoReading::Mhz(self.center_freq.saturating_sub(OFFSET_TUNING_HZ))
        } else if i == 3 {
            InfoReading::Dbfs(measured(self.health.rssi_dbfs_x10))
        } else if i == 4 {
            InfoReading::Db(measured(self.health.snr_db_x10))
        } else if i == 5 {
            InfoReading::Pair(self.health.iq_drops, self.health.iq_laps)
        } else {
            InfoReading::Count(self.health.underruns)
        }
    }

    /// The texts are the readings of all the rows in words.
    pub open spec fn worded<F: Fn(InfoReading) -> String>(
        &self,
        other: F,
        values: Seq<String>,
    ) -> bool {
        &&& values.len() == ROWS
        &&& forall|i: int|
            0 <= i < ROWS ==> self.spec_reading(i).reads(other, #[trigger] values[i])
    }

    /// The readings of all the rows in words.
    pub fn values<F: Fn(InfoReading) -> String>(&self, other: &F) -> (values: Vec<String>)
        requires
            words_everything(*other),
        ensures
            self.worded(*other, values@),
            forall|i: int| 0 <= i < ROWS ==> drawable((#[trigger] values@[i])@),
    {
        let mut values: Vec<String> = Vec::new();
        while values.len() < ROWS
            invariant
                values.len() <= ROWS,
                words_everything(*other),
                forall|i: int|
                    0 <= i < values.len() ==> self.spec_reading(i).reads(
                        *other,
                        #[trigger] values@[i],
                    ),
                forall|i: int|
                    0 <= i < values.len() ==> drawable((#[trigger] values@[i])@),
            decreases ROWS - values.len(),
        {
            values.push(self.reading(values.len()).words(other));
        }
        values
    }

    /// Draw the panel: every row with its reading in words.
    pub fn render<F: Fn(InfoReading) -> String>(&self, area: Rect, buf: &mut Screen, other: &F)
        requires
            whole(*old(buf)),
            margin(area, bounds(*old(buf))),
            words_everything(*other),
        ensures
            area.spec_inner().spec_is_empty() ==> shows(
                *old(buf),
                *final(buf),
                seq![info_frame(area)],
            ),
            !area.spec_inner().spec_is_empty() ==> exists|
                rows: Seq<Rect>,
                columns: Seq<Seq<Rect>>,
                values: Seq<String>,
            | #[trigger]
                self.worded(*other, values) && #[trigger] info_laid_out(
                    area.spec_inner(),
                    rows,
                    columns,
                ) && shows(*old(buf), *final(buf), info_panel(area, columns, texts(values))),
    {
        let ghost start = *buf;
        let inner = area.inner();
        proof {
            reveal_strlit("Info");
            lemma_fresh(start);
        }
        draw_block(buf, "Info", colors::pane_chrome(false), area);
        let ghost frame = info_frame(area);
        proof {
            lemma_next(start, start, *buf, Seq::empty(), frame);
            assert(Seq::<Stroke>::empty().push(frame) =~= seq![frame]);
        }
        if inner.is_empty() {
            return;
        }
        let mut heights: Vec<Constraint> = Vec::new();
        while heights.len() < ROWS
            invariant
                heights.len() <= ROWS,
                forall|i: int| 0 <= i < heights.len() ==> heights@[i] == Constraint::Length(1),
            decreases ROWS - heights.len(),
        {
            heights.push(Constraint::Length(1));
        }
        assert(heights@ =~= row_heights());
        let mut cs: Vec<Constraint> = Vec::new();
        cs.push(Constraint::Length(9));
        cs.push(Constraint::Fill(1));
        assert(cs@ =~= info_columns());
        let rows = split_vertical(inner, &heights);
        let mut columns: Vec<Vec<Rect>> = Vec::new();
        while columns.len() < ROWS
            invariant
                columns.len() <= ROWS,
                rows@.len() == ROWS,
                cs@ == info_columns(),
                forall|j: int|
                    0 <= j < columns.len() ==> side_by_side(
                        rows@[j],
                        info_columns(),
                        (#[trigger] columns@[j])@,
                    ),
            decreases ROWS - columns.len(),
        {
            let parts = split_horizontal(rows[columns.len()], &cs);
            columns.push(parts);
        }
        let ghost framed = *buf;
        let values = self.values(other);
        paint_rows(buf, &columns, &values);
        proof {
            let laid = column_views(columns@);
            assert forall|i: int| 0 <= i < ROWS implies side_by_side(
                rows@[i],
                info_columns(),
                #[trigger] laid[i],
            ) by {
                assert(laid[i] == columns@[i]@);
            }
            assert(info_laid_out(inner, rows@, laid));
            lemma_more(
                start,
                framed,
                *buf,
                seq![frame],
                info_strokes(ROWS as nat, laid, texts(values@)),
            );
        }
    }
}

/// The columns of each row.
pub open spec fn column_views(columns: Seq<Vec<Rect>>) -> Seq<Seq<Rect>> {
    columns.map_values(|c: Vec<Rect>| c@)
}

/// Draw the rows, whose columns have been laid out.
pub fn paint_rows(buf: &mut Screen, columns: &Vec<Vec<Rect>>, values: &Vec<String>)
    requires
        whole(*old(buf)),
        columns@.len() == ROWS,
        forall|i: int| 0 <= i < ROWS ==> (#[trigger] columns@[i])@.len() == 2,
        forall|i: int, j: int|
            0 <= i < ROWS && 0 <= j < 2 ==> margin(
                #[trigger] columns@[i]@[j],
                bounds(*old(buf)),
            ),
        values@.len() == ROWS,
        forall|i: int| 0 <= i < ROWS ==> drawable((#[trigger] values@[i])@),
    ensures
        shows(
            *old(buf),
            *final(buf),
            info_strokes(ROWS as nat, column_views(columns@), texts(values@)),
        ),
{
    let ghost start = *buf;
    let ghost laid = column_views(columns@);
    let ghost words = texts(values@);
    let mut i: usize = 0;
    proof {
        lemma_fresh(start);
    }
    while i < ROWS
        invariant
            i <= ROWS,
            whole(start),
            whole(*buf),
            columns@.len() == ROWS,
            forall|i: int| 0 <= i < ROWS ==> (#[trigger] columns@[i])@.len() == 2,
            forall|i: int, j: int|
                0 <= i < ROWS && 0 <= j < 2 ==> margin(#[trigger] columns@[i]@[j], bounds(*buf)),
            values@.len() == ROWS,
            forall|i: int| 0 <= i < ROWS ==> drawable((#[trigger] values@[i])@),
            words == texts(values@),
            laid == column_views(columns@),
            shows(start, *buf, info_strokes(i as nat, laid, words)),
        decreases ROWS - i,
    {
        let ghost before = *buf;
        let ghost done = info_strokes(i as nat, laid, words);
        let a: Rect = columns[i][0];
        let b: Rect = columns[i][1];
        draw_line(buf, label(i), Style::new().fg(colors::LABEL), a);
        let ghost between = *buf;
        let ghost first = Stroke::Line {
            text: info_label(i as int),
            style: Style::ink(colors::LABEL),
            area: a,
        };
        proof {
            lemma_next(start, before, between, done, first);
        }
        draw_right_line(buf, values[i].as_str(), Style::new().fg(colors::TEXT), b);
        proof {
            let second = Stroke::RightLine {
                text: words[i as int],
                style: Style::ink(colors::TEXT),
                area: b,
            };
            lemma_next(start, between, *buf, done.push(first), second);
            assert(laid[i as int] == columns@[i as int]@);
            assert(info_strokes((i + 1) as nat, laid, words) == done.push(first).push(second));
        }
        i += 1;
    }
}

} // verus!
