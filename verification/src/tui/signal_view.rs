//! The signal panel: a spectrum above a scrolling spectrogram.
//!
//! Time runs down the screen, frequency across it, magnitude as colour. Rows are
//! kept at full bin resolution and folded onto columns when drawn, so a resize
//! folds the existing history anew.
//!
//! A magnitude is a number that orders as the dB value it stands for; the lowest
//! number stands for no signal at all.

use std::collections::VecDeque;

use ratatui::buffer::Buffer as Screen;
use vstd::prelude::*;

use crate::tui::axes::{
    axis_labels, can_label, cursor, draw_mhz_axis, freq_col, freq_marks, frequency_axis,
    frequency_column, frequency_marks, labelled, lemma_column_on_plot, lemma_marks_fit, longest,
    render_cursor, render_vaxis, texts, vaxis_marks, vertical_axis, vertical_marks, widest, MARKS,
};
use crate::tui::colors;
use crate::tui::paint::{
    bounds, claimed, draw_block, edge, fits, lemma_fresh, lemma_more, lemma_next,
    lemma_stays_whole, lemma_two_parts, margin, shows, side_by_side, split_horizontal,
    split_vertical, stacked, taken, whole, Chrome, Color, Constraint, Rect, Stroke, Style,
    TEXT_MAX,
};
use crate::tui::plot::{bars, braille, draw_bars, draw_braille, draw_water_row, water, water_row};
use crate::tui::tui::FRAME;
use crate::tui::tui_states::TuiStates;

verus! {

/// The number that stands for no signal at all.
pub const NO_SIGNAL: i32 = i32::MIN;

/// How the spectrum is drawn: blocks are finest vertically, braille is finest
/// horizontally.
#[derive(Clone, Copy, Debug, PartialEq, Eq, Structural)]
pub enum SpectrumStyle {
    Blocks,
    BrailleFill,
    BrailleTrace,
}

impl SpectrumStyle {
    pub open spec fn spec_next(self) -> Self {
        match self {
            SpectrumStyle::Blocks => SpectrumStyle::BrailleFill,
            SpectrumStyle::BrailleFill => SpectrumStyle::BrailleTrace,
            SpectrumStyle::BrailleTrace => SpectrumStyle::Blocks,
        }
    }

    /// The style a keypress switches to.
    pub fn next(self) -> (s: Self)
        ensures
            s == self.spec_next(),
    {
        match self {
            SpectrumStyle::Blocks => SpectrumStyle::BrailleFill,
            SpectrumStyle::BrailleFill => SpectrumStyle::BrailleTrace,
            SpectrumStyle::BrailleTrace => SpectrumStyle::Blocks,
        }
    }

    pub open spec fn spec_label(self) -> Seq<char> {
        match self {
            SpectrumStyle::Blocks => "blocks"@,
            SpectrumStyle::BrailleFill => "braille fill"@,
            SpectrumStyle::BrailleTrace => "braille trace"@,
        }
    }

    pub fn label(self) -> (s: &'static str)
        ensures
            s@ == self.spec_label(),
    {
        match self {
            SpectrumStyle::Blocks => "blocks",
            SpectrumStyle::BrailleFill => "braille fill",
            SpectrumStyle::BrailleTrace => "braille trace",
        }
    }
}

/// The styles go round.
pub proof fn styles_go_round(s: SpectrumStyle)
    ensures
        s.spec_next() != s,
        s.spec_next().spec_next() != s,
        s.spec_next().spec_next().spec_next() == s,
{
}

/// The larger of two magnitudes.
pub open spec fn larger(a: i32, b: i32) -> i32 {
    if a < b {
        b
    } else {
        a
    }
}

/// The peak of some magnitudes.
pub open spec fn peak(s: Seq<i32>) -> i32
    decreases s.len(),
{
    if s.len() == 0 {
        NO_SIGNAL
    } else {
        larger(peak(s.drop_last()), s.last())
    }
}

/// The peak is at least every magnitude, and one of them.
pub proof fn lemma_peak(s: Seq<i32>)
    requires
        s.len() > 0,
    ensures
        s.contains(peak(s)),
        forall|i: int| 0 <= i < s.len() ==> #[trigger] s[i] <= peak(s),
    decreases s.len(),
{
    if s.len() == 1 {
        assert(s.drop_last() =~= Seq::<i32>::empty());
        assert(peak(s.drop_last()) == NO_SIGNAL);
        assert(s[0] == peak(s));
    } else {
        let most = s.drop_last();
        lemma_peak(most);
        let i = choose|i: int| 0 <= i < most.len() && most[i] == peak(most);
        assert(s[i] == peak(most));
        assert(s[s.len() - 1] == s.last());
        assert forall|i: int| 0 <= i < s.len() implies #[trigger] s[i] <= peak(s) by {
            if i < most.len() {
                assert(most[i] == s[i]);
            }
        }
    }
}

/// The first bin of column `x` of `width`.
pub open spec fn first_bin(bins: int, x: int, width: int) -> int {
    x * bins / width
}

/// The bin after the last one of column `x` of `width`: a column has at least
/// one bin.
pub open spec fn end_bin(bins: int, x: int, width: int) -> int {
    let end = (x + 1) * bins / width;
    let least = first_bin(bins, x, width) + 1;
    if end < least {
        least
    } else {
        end
    }
}

/// The peak of the bins folded onto column `x` of `width`. Peak rather than mean:
/// the mean of nineteen noise bins and one carrier is noise.
pub open spec fn folded(row: Seq<i32>, x: int, width: int) -> i32 {
    peak(
        row.subrange(
            first_bin(row.len() as int, x, width),
            end_bin(row.len() as int, x, width),
        ),
    )
}

/// The bins of a column are bins of the row.
pub proof fn lemma_column_bins(bins: int, x: int, width: int)
    requires
        bins > 0,
        0 <= x < width,
    ensures
        0 <= first_bin(bins, x, width) < end_bin(bins, x, width) <= bins,
{
    let a = x * bins;
    let b = (x + 1) * bins;
    assert(0 <= a && a < bins * width && b <= bins * width && a <= b) by (nonlinear_arith)
        requires
            a == x * bins,
            b == (x + 1) * bins,
            bins > 0,
            0 <= x < width,
    ;
    vstd::arithmetic::div_mod::lemma_div_pos_is_pos(a, width);
    vstd::arithmetic::div_mod::lemma_fundamental_div_mod(a, width);
    vstd::arithmetic::div_mod::lemma_fundamental_div_mod(b, width);
    assert(a / width < bins) by (nonlinear_arith)
        requires
            a == width * (a / width) + a % width,
            0 <= a % width,
            a < bins * width,
            width > 0,
    ;
    assert(b / width <= bins) by (nonlinear_arith)
        requires
            b == width * (b / width) + b % width,
            0 <= b % width,
            b <= bins * width,
            width > 0,
    ;
}

/// No carrier is lost: every bin is folded onto some column, whose peak is then
/// at least as high.
pub proof fn every_bin_is_shown(row: Seq<i32>, b: int, width: int) -> (x: int)
    requires
        0 <= b < row.len(),
        width > 0,
    ensures
        0 <= x < width,
        first_bin(row.len() as int, x, width) <= b < end_bin(row.len() as int, x, width),
        row[b] <= folded(row, x, width),
{
    let bins = row.len() as int;
    let m = (b + 1) * width - 1;
    let x = m / bins;
    assert(0 <= m < bins * width) by (nonlinear_arith)
        requires
            m == (b + 1) * width - 1,
            0 <= b < bins,
            width > 0,
    ;
    vstd::arithmetic::div_mod::lemma_fundamental_div_mod(m, bins);
    vstd::arithmetic::div_mod::lemma_div_pos_is_pos(m, bins);
    assert(x < width) by (nonlinear_arith)
        requires
            m == bins * x + m % bins,
            0 <= m % bins,
            m < bins * width,
            bins > 0,
    ;
    let lo = x * bins;
    let hi = (x + 1) * bins;
    assert(lo <= m && m < hi) by (nonlinear_arith)
        requires
            m == bins * x + m % bins,
            0 <= m % bins < bins,
            lo == x * bins,
            hi == (x + 1) * bins,
    ;
    vstd::arithmetic::div_mod::lemma_fundamental_div_mod(lo, width);
    vstd::arithmetic::div_mod::lemma_fundamental_div_mod(hi, width);
    assert(lo / width <= b) by (nonlinear_arith)
        requires
            lo == width * (lo / width) + lo % width,
            0 <= lo % width,
            lo <= (b + 1) * width - 1,
            width > 0,
    ;
    assert(b < hi / width) by (nonlinear_arith)
        requires
            hi == width * (hi / width) + hi % width,
            hi % width < width,
            hi >= (b + 1) * width,
            width > 0,
    ;
    lemma_column_bins(bins, x, width);
    let part = row.subrange(first_bin(bins, x, width), end_bin(bins, x, width));
    lemma_peak(part);
    assert(part[b - first_bin(bins, x, width)] == row[b]);
    x
}

/// Spectra gathered into rows, newest first.
pub struct SignalView {
    bins: usize,
    rows: VecDeque<Vec<i32>>,
    history: usize,
    /// The peaks of the spectra since the last row.
    pending: Vec<i32>,
    has_pending: bool,
    style: SpectrumStyle,
    axes: Axes,
    /// Rows of the waterfall, not of the panel.
    waterfall_height: u16,
}

/// What stands at the ends of the axes.
#[derive(Clone, Copy, Debug, PartialEq, Eq, Structural)]
pub struct Axes {
    /// The bottom and the top of the dB axis.
    pub floor_db: i32,
    pub ceil_db: i32,
    /// The centre that the frequency axis was last made for.
    pub center_freq: u32,
    /// The left and the right end of the frequency axis, in halves of a hertz.
    pub left: i64,
    pub right: i64,
    /// The bottom of the time axis, in milliseconds; the top is now.
    pub oldest: i64,
}

impl Axes {
    /// The dB axis for a colour range.
    pub open spec fn with_db(self, floor_db: i32, ceil_db: i32) -> Self {
        Axes { floor_db, ceil_db, ..self }
    }

    /// The frequency axis for a centre and a span.
    pub open spec fn with_freq(self, center: u32, span: u32) -> Self {
        Axes {
            center_freq: center,
            left: (2 * center - span) as i64,
            right: (2 * center + span) as i64,
            ..self
        }
    }

    /// The time axis for so many rows: two spectra a row, one a frame.
    pub open spec fn with_time(self, rows: u16) -> Self {
        Axes { oldest: (-(2 * rows * FRAME)) as i64, ..self }
    }
}

/// The state of a [`SignalView`].
#[verifier::ext_equal]
pub struct SignalState {
    pub bins: nat,
    pub rows: Seq<Seq<i32>>,
    pub history: nat,
    pub pending: Seq<i32>,
    pub has_pending: bool,
    pub style: SpectrumStyle,
    pub axes: Axes,
    pub waterfall_height: u16,
}

impl View for SignalView {
    type V = SignalState;

    closed spec fn view(&self) -> SignalState {
        SignalState {
            bins: self.bins as nat,
            rows: self.rows@.map_values(|r: Vec<i32>| r@),
            history: self.history as nat,
            pending: self.pending@,
            has_pending: self.has_pending,
            style: self.style,
            axes: self.axes,
            waterfall_height: self.waterfall_height,
        }
    }
}

/// `n` bins without a signal.
pub open spec fn quiet(n: nat) -> Seq<i32> {
    Seq::new(n, |i: int| NO_SIGNAL)
}

impl SignalState {
    /// Every row has every bin, and the bins can be counted out onto the columns
    /// of the widest screen.
    pub open spec fn wf(self) -> bool {
        &&& self.bins * 0x2_0000 <= usize::MAX
        &&& self.pending.len() == self.bins
        &&& forall|i: int| 0 <= i < self.rows.len() ==> (#[trigger] self.rows[i]).len()
            == self.bins
    }

    /// The state after the axes were made anew.
    pub open spec fn marked(self, s: TuiStates, force: bool) -> Self {
        let db = self.axes.with_db(s.floor_db, s.ceil_db);
        let freq = if force || s.center_freq != db.center_freq {
            db.with_freq(s.center_freq, s.sample_rate)
        } else {
            db
        };
        SignalState {
            axes: if force {
                freq.with_time(self.waterfall_height)
            } else {
                freq
            },
            ..self
        }
    }

    /// The state after a spectrum: its peaks are held. Bins it does not have are
    /// left alone, and bins it has too many are ignored.
    pub open spec fn push(self, spectrum: Seq<i32>) -> Self {
        SignalState {
            pending: Seq::new(
                self.pending.len(),
                |i: int|
                    if i < spectrum.len() {
                        larger(self.pending[i], spectrum[i])
                    } else {
                        self.pending[i]
                    },
            ),
            has_pending: true,
            ..self
        }
    }

    /// The rows that stay when another comes: the oldest goes once the history
    /// is full.
    pub open spec fn kept(self) -> Seq<Seq<i32>> {
        if self.rows.len() >= self.history {
            self.rows.drop_last()
        } else {
            self.rows
        }
    }

    /// The state after a frame: what was gathered is the newest row. Where
    /// nothing came in, the display freezes.
    pub open spec fn commit(self) -> Self {
        if self.has_pending {
            SignalState {
                rows: seq![self.pending] + self.kept(),
                pending: quiet(self.bins),
                has_pending: false,
                ..self
            }
        } else {
            self
        }
    }
}

/// The axes of a view before its pane has been laid out.
pub open spec fn first_axes(s: TuiStates) -> Axes {
    Axes {
        floor_db: s.floor_db,
        ceil_db: s.ceil_db,
        center_freq: s.center_freq,
        left: (2 * s.center_freq - s.sample_rate) as i64,
        right: (2 * s.center_freq + s.sample_rate) as i64,
        oldest: 0,
    }
}

impl SignalView {
    /// Nothing gathered. `history` is how many rows are kept.
    pub fn new(bins: usize, history: usize, states: &TuiStates) -> (v: Self)
        requires
            bins * 0x2_0000 <= usize::MAX,
        ensures
            v@.wf(),
            v@ == (SignalState {
                bins: bins as nat,
                rows: Seq::empty(),
                history: history as nat,
                pending: quiet(bins as nat),
                has_pending: false,
                style: SpectrumStyle::BrailleFill,
                axes: first_axes(*states),
                waterfall_height: 0,
            }),
    {
        let mut v = SignalView {
            bins,
            rows: VecDeque::with_capacity(history),
            history,
            pending: silence(bins),
            has_pending: false,
            style: SpectrumStyle::BrailleFill,
            axes: Axes {
                floor_db: states.floor_db,
                ceil_db: states.ceil_db,
                center_freq: states.center_freq,
                left: 0,
                right: 0,
                oldest: 0,
            },
            waterfall_height: 0,
        };
        assert(v@.rows =~= Seq::<Seq<i32>>::empty());
        // The axes are only made anew when something changes, and nothing has
        // changed yet; the time axis has to wait for the pane to be laid out.
        v.gen_spec_yaxis_label(states, true);
        v.gen_water_xaxis_labels(states, true);
        v
    }

    /// The waterfall has been laid out on so many rows.
    pub fn set_waterfall_height(&mut self, rows: u16)
        ensures
            final(self)@ == (SignalState { waterfall_height: rows, ..old(self)@ }),
    {
        self.waterfall_height = rows;
    }

    /// Make every axis anew: those whose ends changed, or all.
    pub fn gen_marked_labels(&mut self, states: &TuiStates, force: bool)
        ensures
            final(self)@ == old(self)@.marked(*states, force),
    {
        self.gen_spec_yaxis_label(states, force);
        self.gen_water_xaxis_labels(states, force);
        self.gen_water_yaxis_label(force);
    }

    /// Make the dB axis anew, if the colour range changed or by force.
    pub fn gen_spec_yaxis_label(&mut self, states: &TuiStates, force: bool)
        ensures
            final(self)@ == (SignalState {
                axes: old(self)@.axes.with_db(states.floor_db, states.ceil_db),
                ..old(self)@
            }),
    {
        if force || states.floor_db != self.axes.floor_db || states.ceil_db != self.axes.ceil_db {
            self.axes.floor_db = states.floor_db;
            self.axes.ceil_db = states.ceil_db;
        }
    }

    /// Make the frequency axis anew, if the centre changed or by force. The span
    /// is the sample rate, which does not change.
    pub fn gen_water_xaxis_labels(&mut self, states: &TuiStates, force: bool)
        ensures
            final(self)@ == (SignalState {
                axes: if force || states.center_freq != old(self)@.axes.center_freq {
                    old(self)@.axes.with_freq(states.center_freq, states.sample_rate)
                } else {
                    old(self)@.axes
                },
                ..old(self)@
            }),
    {
        if force || states.center_freq != self.axes.center_freq {
            let center: i64 = 2 * (states.center_freq as i64);
            let span: i64 = states.sample_rate as i64;
            self.axes.left = center - span;
            self.axes.right = center + span;
            self.axes.center_freq = states.center_freq;
        }
    }

    /// Make the time axis anew, by force only.
    pub fn gen_water_yaxis_label(&mut self, force: bool)
        ensures
            final(self)@ == (SignalState {
                axes: if force {
                    old(self)@.axes.with_time(old(self)@.waterfall_height)
                } else {
                    old(self)@.axes
                },
                ..old(self)@
            }),
    {
        if force {
            // A row is filled in two frames.
            let span: i64 = 2 * (self.waterfall_height as i64) * (FRAME as i64);
            self.axes.oldest = -span;
        }
    }

    /// Switch to the next style and say which it is.
    pub fn cycle_style(&mut self) -> (s: SpectrumStyle)
        ensures
            s == old(self)@.style.spec_next(),
            final(self)@ == (SignalState { style: s, ..old(self)@ }),
    {
        self.style = self.style.next();
        self.style
    }

    /// Fold one spectrum into the pending row, keeping the peaks. Averaging would
    /// bury a narrow carrier in the noise, and is not right on dB values.
    pub fn push(&mut self, spectrum: &[i32])
        requires
            old(self)@.wf(),
        ensures
            final(self)@.wf(),
            final(self)@ == old(self)@.push(spectrum@),
    {
        let mut i: usize = 0;
        let n: usize = self.pending.len();
        let ghost before = self.pending@;
        while i < n && i < spectrum.len()
            invariant
                i <= n,
                i <= spectrum@.len(),
                n == self.pending@.len(),
                n == before.len(),
                before == old(self).pending@,
                self.bins == old(self).bins,
                self.rows == old(self).rows,
                self.history == old(self).history,
                self.style == old(self).style,
                self.axes == old(self).axes,
                self.waterfall_height == old(self).waterfall_height,
                forall|j: int| 0 <= j < i ==> self.pending@[j] == larger(before[j], spectrum@[j]),
                forall|j: int| i <= j < n ==> self.pending@[j] == before[j],
            decreases n - i,
        {
            if self.pending[i] < spectrum[i] {
                self.pending[i] = spectrum[i];
            }
            i += 1;
        }
        self.has_pending = true;
        proof {
            assert(self.pending@ =~= old(self)@.push(spectrum@).pending);
            assert(self@ =~= old(self)@.push(spectrum@));
        }
    }

    /// Make the pending row the newest line. Called once a frame: that, not the
    /// rate of the spectra, is the speed of the waterfall.
    pub fn commit(&mut self)
        requires
            old(self)@.wf(),
            old(self)@.history > 0,
        ensures
            final(self)@.wf(),
            final(self)@ == old(self)@.commit(),
    {
        if !self.has_pending {
            return;
        }
        let ghost before = self.rows@;
        if self.rows.len() >= self.history {
            self.rows.pop_back();
        }
        let mut row = silence(self.bins);
        std::mem::swap(&mut row, &mut self.pending);
        self.rows.push_front(row);
        self.has_pending = false;
        proof {
            let want = old(self)@.commit();
            assert(self@.rows =~= want.rows);
            assert(self@ =~= want);
        }
    }

    /// The peak over the bins folded onto column `x` of `width`.
    fn column(&self, row: &Vec<i32>, x: usize, width: usize) -> (db: i32)
        requires
            row@.len() == self@.bins,
            self@.bins > 0,
            x < width,
            width * self@.bins <= usize::MAX,
        ensures
            db == folded(row@, x as int, width as int),
    {
        proof {
            lemma_column_bins(self.bins as int, x as int, width as int);
            assert((x + 1) * self.bins <= width * self.bins) by (nonlinear_arith)
                requires
                    x + 1 <= width,
            ;
            assert(x * self.bins <= width * self.bins) by (nonlinear_arith)
                requires
                    x <= width,
            ;
        }
        let lo: usize = x * self.bins / width;
        let end: usize = (x + 1) * self.bins / width;
        let hi: usize = if end < lo + 1 {
            lo + 1
        } else {
            end
        };
        let mut db: i32 = NO_SIGNAL;
        let mut i: usize = lo;
        while i < hi
            invariant
                lo <= i <= hi <= row@.len(),
                db == peak(row@.subrange(lo as int, i as int)),
            decreases hi - i,
        {
            let ghost so_far = row@.subrange(lo as int, i as int);
            assert(row@.subrange(lo as int, i + 1) =~= so_far.push(row@[i as int]));
            assert(so_far.push(row@[i as int]).drop_last() =~= so_far);
            if db < row[i] {
                db = row[i];
            }
            i += 1;
        }
        db
    }
}

/// `n` bins without a signal.
fn silence(n: usize) -> (v: Vec<i32>)
    ensures
        v@ == quiet(n as nat),
{
    let mut v: Vec<i32> = Vec::new();
    while v.len() < n
        invariant
            v.len() <= n,
            forall|i: int| 0 <= i < v.len() ==> v@[i] == NO_SIGNAL,
        decreases n - v.len(),
    {
        v.push(NO_SIGNAL);
    }
    assert(v@ =~= quiet(n as nat));
    v
}

/// No axis goes stale: as long as the sample rate is the one the axis was made
/// for, asking for new labels leaves the dB and the frequency axis as the
/// settings have them, whether by force or not.
pub proof fn axes_never_go_stale(v: SignalState, s: TuiStates, force: bool)
    requires
        v.axes == v.axes.with_freq(v.axes.center_freq, s.sample_rate),
    ensures
        v.marked(s, force).axes == v.marked(s, force).axes.with_db(
            s.floor_db,
            s.ceil_db,
        ).with_freq(s.center_freq, s.sample_rate),
        first_axes(s) == first_axes(s).with_db(s.floor_db, s.ceil_db).with_freq(
            s.center_freq,
            s.sample_rate,
        ),
{
}

/// A row holds the peak of every spectrum since the last one, in any order.
pub proof fn peaks_are_held(s: SignalState, a: Seq<i32>, b: Seq<i32>)
    requires
        s.wf(),
        a.len() == s.bins,
        b.len() == s.bins,
    ensures
        s.push(a).push(b) == s.push(b).push(a),
        s.push(a).push(a) == s.push(a),
        forall|i: int| 0 <= i < s.bins ==> a[i] <= #[trigger] s.push(a).pending[i],
{
    assert(s.push(a).push(b).pending =~= s.push(b).push(a).pending);
    assert(s.push(a).push(a).pending =~= s.push(a).pending);
}

/// A stalled radio freezes the display: with nothing gathered a frame changes
/// nothing, and right after a row nothing is gathered.
pub proof fn stalled_display_freezes(s: SignalState)
    ensures
        !s.has_pending ==> s.commit() == s,
        s.commit().commit() == s.commit(),
{
}

/// The history never grows past its limit, and the newest row is the first.
pub proof fn history_is_bounded(s: SignalState)
    requires
        s.rows.len() <= s.history,
        s.history > 0,
    ensures
        s.commit().rows.len() <= s.history,
        s.has_pending ==> s.commit().rows[0] == s.pending,
        s.has_pending && s.rows.len() > 0 && s.history > 1 ==> s.commit().rows[1] == s.rows[0],
{
}

/// Columns kept for a vertical axis: four for the number, one for the tick.
pub const Y_AXIS_WIDTH: u16 = 5;

/// Where each piece of the panel goes.
#[derive(Clone, Copy, Debug, PartialEq, Eq, Structural)]
pub struct SignalLayout {
    pub spec_axis: Rect,
    pub spec: Rect,
    pub freq_axis: Rect,
    pub water_axis: Rect,
    pub water: Rect,
}

/// The spectrum, the frequency axis on the seam, and the waterfall.
pub open spec fn panes() -> Seq<Constraint> {
    seq![Constraint::Percentage(30), Constraint::Length(1), Constraint::Fill(1)]
}

/// A vertical axis and what it bounds.
pub open spec fn gutter() -> Seq<Constraint> {
    seq![Constraint::Length(Y_AXIS_WIDTH), Constraint::Fill(1)]
}

/// A layout of the panel: three panes one below the other inside the border,
/// each with the same gutter on its left.
pub open spec fn laid_out(area: Rect, l: SignalLayout, rows: Seq<Rect>, blank: Rect) -> bool {
    &&& stacked(area.spec_inner(), panes(), rows)
    &&& side_by_side(rows[0], gutter(), seq![l.spec_axis, l.spec])
    &&& side_by_side(rows[1], gutter(), seq![blank, l.freq_axis])
    &&& side_by_side(rows[2], gutter(), seq![l.water_axis, l.water])
}

/// The layout is one of the panel.
pub open spec fn lays_out(area: Rect, l: SignalLayout) -> bool {
    exists|rows: Seq<Rect>, blank: Rect| #[trigger] laid_out(area, l, rows, blank)
}

/// The gutter takes its columns and leaves the rest.
proof fn lemma_gutter(r: Rect, axis: Rect, plot: Rect)
    requires
        side_by_side(r, gutter(), seq![axis, plot]),
        r.width >= Y_AXIS_WIDTH,
        r.x + r.width <= u16::MAX,
    ensures
        axis.x == r.x,
        axis.width == Y_AXIS_WIDTH,
        plot.x == r.x + Y_AXIS_WIDTH,
        plot.width == r.width - Y_AXIS_WIDTH,
{
    let parts = seq![axis, plot];
    lemma_two_parts(Y_AXIS_WIDTH, 1, r.spec_right() - r.x);
    assert(parts[0] == axis && parts[1] == plot);
}

/// What lies side by side lies within.
proof fn lemma_within(r: Rect, axis: Rect, plot: Rect)
    requires
        side_by_side(r, gutter(), seq![axis, plot]),
    ensures
        axis.y == r.y,
        axis.height == r.height,
        plot.y == r.y,
        plot.height == r.height,
        r.x <= axis.x,
        axis.x + axis.width <= r.spec_right(),
        r.x <= plot.x,
        plot.x + plot.width <= r.spec_right(),
{
    let parts = seq![axis, plot];
    assert(parts[0] == axis && parts[1] == plot);
}

/// One column index means the same frequency all over the panel: the spectrum,
/// the frequency axis and the waterfall share their columns, and each axis is
/// as high as its plot. A pane narrower than the gutter has no such promise.
pub proof fn plots_share_their_columns(area: Rect, l: SignalLayout)
    requires
        lays_out(area, l),
        area.x + area.width <= u16::MAX,
        area.spec_inner().width >= Y_AXIS_WIDTH,
    ensures
        l.spec.x == l.water.x,
        l.spec.width == l.water.width,
        l.freq_axis.x == l.spec.x,
        l.freq_axis.width == l.spec.width,
        l.spec.width == area.width - 2 - Y_AXIS_WIDTH,
        l.spec_axis.width == Y_AXIS_WIDTH,
        l.water_axis.width == Y_AXIS_WIDTH,
        l.spec_axis.height == l.spec.height,
        l.water_axis.height == l.water.height,
{
    let (rows, blank) = choose|rows: Seq<Rect>, blank: Rect| #[trigger]
        laid_out(area, l, rows, blank);
    lemma_gutter(rows[0], l.spec_axis, l.spec);
    lemma_gutter(rows[1], blank, l.freq_axis);
    lemma_gutter(rows[2], l.water_axis, l.water);
    lemma_within(rows[0], l.spec_axis, l.spec);
    lemma_within(rows[2], l.water_axis, l.water);
}

/// The panes of the panel stand in their order, one right below the other: the
/// spectrum has three tenths of the rows inside the border, to the nearest row,
/// its axis the next one, and the waterfall the rest. A panel with fewer than two
/// rows inside has no room for all of them.
pub proof fn panes_share_the_height(area: Rect, l: SignalLayout)
    requires
        lays_out(area, l),
        area.x + area.width <= u16::MAX,
        area.y + area.height <= u16::MAX,
        area.height >= 4,
    ensures
        ({
            let inner = area.spec_inner();
            &&& l.spec.y == inner.y
            &&& l.spec.height == (30 * inner.height + 50) / 100
            &&& l.freq_axis.y == l.spec.y + l.spec.height
            &&& l.freq_axis.height == 1
            &&& l.water.y == l.freq_axis.y + 1
            &&& l.water.y + l.water.height == inner.y + inner.height
        }),
{
    let (rows, blank) = choose|rows: Seq<Rect>, blank: Rect| #[trigger]
        laid_out(area, l, rows, blank);
    let inner = area.spec_inner();
    let h = inner.spec_bottom() - inner.y;
    let cs = panes();
    reveal_with_fuel(claimed, 4);
    reveal_with_fuel(taken, 4);
    assert(cs.drop_last() =~= seq![Constraint::Percentage(30), Constraint::Length(1)]);
    assert(cs.drop_last().drop_last() =~= seq![Constraint::Percentage(30)]);
    assert(cs.drop_last().drop_last().drop_last() =~= Seq::<Constraint>::empty());
    assert(claimed(cs, h) == 30 * h + 100);
    assert(fits(cs, h));
    assert(edge(cs, h, 0) == 0 && edge(cs, h, 3) == h);
    assert(rows[0].y == inner.y && rows[1].height == 1 && rows[2].y == rows[1].y + 1);
    lemma_within(rows[0], l.spec_axis, l.spec);
    lemma_within(rows[1], blank, l.freq_axis);
    lemma_within(rows[2], l.water_axis, l.water);
}

/// Every piece of the panel lies inside its border, and the waterfall is lower
/// than the panel by the border at least.
pub proof fn pieces_lie_inside_the_border(area: Rect, l: SignalLayout)
    requires
        lays_out(area, l),
        area.x + area.width <= u16::MAX,
        area.y + area.height <= u16::MAX,
    ensures
        inside(area.spec_inner(), l.spec_axis),
        inside(area.spec_inner(), l.spec),
        inside(area.spec_inner(), l.freq_axis),
        inside(area.spec_inner(), l.water_axis),
        inside(area.spec_inner(), l.water),
        area.height >= 2 ==> l.water.height <= area.height - 2,
{
    let (rows, blank) = choose|rows: Seq<Rect>, blank: Rect| #[trigger]
        laid_out(area, l, rows, blank);
    assert(rows[0].x == area.spec_inner().x);
    assert(rows[1].x == area.spec_inner().x);
    assert(rows[2].x == area.spec_inner().x);
    lemma_within(rows[0], l.spec_axis, l.spec);
    lemma_within(rows[1], blank, l.freq_axis);
    lemma_within(rows[2], l.water_axis, l.water);
}

/// The rectangle lies inside of another.
pub open spec fn inside(outer: Rect, r: Rect) -> bool {
    &&& outer.x <= r.x
    &&& outer.y <= r.y
    &&& r.x + r.width <= outer.spec_right()
    &&& r.y + r.height <= outer.spec_bottom()
}

/// The peaks of a row, folded onto so many columns.
pub open spec fn folds(row: Seq<i32>, width: int) -> Seq<i32> {
    Seq::new(width as nat, |x: int| folded(row, x, width))
}

/// The sub-row each bar reaches up to, counted from the top. A bar at the bottom
/// still has its baseline, so that a quiet band does not look like a dead one.
pub open spec fn tips(filled: Seq<usize>, rows: int) -> Seq<usize> {
    Seq::new(
        filled.len(),
        |i: int|
            (if filled[i] >= rows {
                0
            } else if filled[i] == 0 {
                rows - 1
            } else {
                rows - filled[i]
            }) as usize,
    )
}

/// A magnitude can be measured in any number of steps, and coloured.
pub open spec fn can_scale<H: Fn(i32, usize) -> usize, K: Fn(i32) -> Color>(
    reach: H,
    color: K,
) -> bool {
    &&& forall|db: i32, steps: usize| call_requires(reach, (db, steps))
    &&& forall|db: i32| call_requires(color, (db,))
}

/// The heights and colours are those of a row in braille.
pub open spec fn braille_scaled<H: Fn(i32, usize) -> usize, K: Fn(i32) -> Color>(
    row: Seq<i32>,
    area: Rect,
    reach: H,
    color: K,
    filled: Seq<usize>,
    shades: Seq<Color>,
) -> bool {
    let db = folds(row, 2 * area.width);
    let rows = (4 * area.height) as usize;
    &&& filled.len() == 2 * area.width
    &&& shades.len() == area.width
    &&& forall|i: int|
        0 <= i < filled.len() ==> call_ensures(reach, (db[i], rows), #[trigger] filled[i])
    &&& forall|i: int|
        0 <= i < shades.len() ==> call_ensures(
            color,
            (larger(db[2 * i], db[2 * i + 1]),),
            #[trigger] shades[i],
        )
}

/// The heights and colours are those of a row in blocks.
pub open spec fn blocks_scaled<E: Fn(i32, usize) -> usize, K: Fn(i32) -> Color>(
    row: Seq<i32>,
    area: Rect,
    eighths: E,
    color: K,
    heights: Seq<usize>,
    shades: Seq<Color>,
) -> bool {
    let db = folds(row, area.width as int);
    let steps = (8 * area.height) as usize;
    &&& heights.len() == area.width
    &&& shades.len() == area.width
    &&& forall|i: int|
        0 <= i < heights.len() ==> call_ensures(eighths, (db[i], steps), #[trigger] heights[i])
    &&& forall|i: int|
        0 <= i < shades.len() ==> call_ensures(color, (db[i],), #[trigger] shades[i])
}

impl SignalState {
    /// There is nothing to plot.
    pub open spec fn dark(self, area: Rect) -> bool {
        area.spec_is_empty() || self.bins == 0 || self.rows.len() == 0
    }

    /// The newest row is on the screen, in braille.
    pub open spec fn braille_shown<H: Fn(i32, usize) -> usize, K: Fn(i32) -> Color>(
        self,
        area: Rect,
        trace: bool,
        reach: H,
        color: K,
        before: Screen,
        after: Screen,
    ) -> bool {
        if self.dark(area) {
            shows(before, after, Seq::empty())
        } else {
            exists|filled: Seq<usize>, shades: Seq<Color>|
                {
                    &&& #[trigger] braille_scaled(
                        self.rows[0],
                        area,
                        reach,
                        color,
                        filled,
                        shades,
                    )
                    &&& shows(
                        before,
                        after,
                        braille(
                            area,
                            tips(filled, 4 * area.height),
                            shades,
                            area.width as nat,
                            trace,
                        ),
                    )
                }
        }
    }

    /// The newest row is on the screen, in blocks.
    pub open spec fn blocks_shown<E: Fn(i32, usize) -> usize, K: Fn(i32) -> Color>(
        self,
        area: Rect,
        eighths: E,
        color: K,
        before: Screen,
        after: Screen,
    ) -> bool {
        if self.dark(area) {
            shows(before, after, Seq::empty())
        } else {
            exists|heights: Seq<usize>, shades: Seq<Color>|
                {
                    &&& #[trigger] blocks_scaled(
                        self.rows[0],
                        area,
                        eighths,
                        color,
                        heights,
                        shades,
                    )
                    &&& shows(before, after, bars(area, heights, shades, area.width as nat))
                }
        }
    }

    /// The newest row is on the screen, in the style of the view.
    pub open spec fn spectrum_shown<
        H: Fn(i32, usize) -> usize,
        E: Fn(i32, usize) -> usize,
        K: Fn(i32) -> Color,
    >(
        self,
        area: Rect,
        reach: H,
        eighths: E,
        color: K,
        before: Screen,
        after: Screen,
    ) -> bool {
        match self.style {
            SpectrumStyle::Blocks => self.blocks_shown(area, eighths, color, before, after),
            SpectrumStyle::BrailleFill => self.braille_shown(
                area,
                false,
                reach,
                color,
                before,
                after,
            ),
            SpectrumStyle::BrailleTrace => self.braille_shown(
                area,
                true,
                reach,
                color,
                before,
                after,
            ),
        }
    }

    /// The colours of line `i` of the waterfall: those of its row, newest first,
    /// and of an empty well behind the oldest.
    pub open spec fn water_line<K: Fn(i32) -> Color>(
        self,
        i: int,
        width: int,
        color: K,
        line: Seq<Color>,
    ) -> bool {
        &&& line.len() == width
        &&& forall|x: int|
            0 <= x < width ==> if i < self.rows.len() {
                call_ensures(color, (folded(self.rows[i], x, width),), #[trigger] line[x])
            } else {
                line[x] == colors::WATERFALL_EMPTY
            }
    }

    /// The colours of the first lines of the waterfall.
    pub open spec fn water_lines<K: Fn(i32) -> Color>(
        self,
        width: int,
        color: K,
        lines: Seq<Seq<Color>>,
    ) -> bool {
        forall|i: int| 0 <= i < lines.len() ==> self.water_line(i, width, color, #[trigger] lines[i])
    }

    /// The history is on the screen, two rows a line.
    pub open spec fn waterfall_shown<K: Fn(i32) -> Color>(
        self,
        area: Rect,
        color: K,
        before: Screen,
        after: Screen,
    ) -> bool {
        if area.spec_is_empty() || self.bins == 0 {
            shows(before, after, Seq::empty())
        } else {
            exists|lines: Seq<Seq<Color>>|
                {
                    &&& lines.len() == 2 * area.height
                    &&& #[trigger] self.water_lines(area.width as int, color, lines)
                    &&& shows(before, after, water(area, lines, area.height as nat))
                }
        }
    }
}

impl SignalView {
    /// Split the panel, whose border is part of the area. The frequency axis is
    /// on the seam of the two plots that share it.
    pub fn layout(area: Rect) -> (l: SignalLayout)
        ensures
            lays_out(area, l),
    {
        let mut cs: Vec<Constraint> = Vec::new();
        cs.push(Constraint::Percentage(30));
        cs.push(Constraint::Length(1));
        cs.push(Constraint::Fill(1));
        let mut g: Vec<Constraint> = Vec::new();
        g.push(Constraint::Length(Y_AXIS_WIDTH));
        g.push(Constraint::Fill(1));
        let rows = split_vertical(area.inner(), &cs);
        proof {
            assert(cs@ =~= panes());
            assert(g@ =~= gutter());
        }
        let spec = split_horizontal(rows[0], &g);
        let freq = split_horizontal(rows[1], &g);
        let water = split_horizontal(rows[2], &g);
        let l = SignalLayout {
            spec_axis: spec[0],
            spec: spec[1],
            freq_axis: freq[1],
            water_axis: water[0],
            water: water[1],
        };
        proof {
            assert(spec@ =~= seq![l.spec_axis, l.spec]);
            assert(freq@ =~= seq![freq@[0], l.freq_axis]);
            assert(water@ =~= seq![l.water_axis, l.water]);
            assert(laid_out(area, l, rows@, freq@[0]));
        }
        l
    }

    /// The peaks of a row, folded onto so many columns.
    fn fold(&self, row: &Vec<i32>, width: usize) -> (peaks: Vec<i32>)
        requires
            row@.len() == self@.bins,
            self@.bins > 0,
            width * self@.bins <= usize::MAX,
        ensures
            peaks@ == folds(row@, width as int),
    {
        let mut peaks: Vec<i32> = Vec::new();
        while peaks.len() < width
            invariant
                row@.len() == self@.bins,
                self@.bins > 0,
                width * self@.bins <= usize::MAX,
                peaks.len() <= width,
                forall|x: int|
                    0 <= x < peaks.len() ==> peaks@[x] == folded(row@, x, width as int),
            decreases width - peaks.len(),
        {
            let x: usize = peaks.len();
            peaks.push(self.column(row, x, width));
        }
        assert(peaks@ =~= folds(row@, width as int));
        peaks
    }

    /// Draw the newest row in the style of the view. `reach` says how many of so
    /// many braille rows a magnitude fills, `eighths` how many eighths of a block,
    /// and `color` how it is coloured.
    pub fn render_spectrum<
        H: Fn(i32, usize) -> usize,
        E: Fn(i32, usize) -> usize,
        K: Fn(i32) -> Color,
    >(&self, area: Rect, buf: &mut Screen, reach: &H, eighths: &E, color: &K)
        requires
            self@.wf(),
            can_scale(*reach, *color),
            can_scale(*eighths, *color),
            area.x + area.width <= u16::MAX,
            area.y + area.height <= u16::MAX,
        ensures
            self@.spectrum_shown(area, *reach, *eighths, *color, *old(buf), *final(buf)),
    {
        match self.style {
            SpectrumStyle::Blocks => self.render_spectrum_blocks(area, buf, eighths, color),
            SpectrumStyle::BrailleFill => self.render_spectrum_braille(
                area,
                buf,
                false,
                reach,
                color,
            ),
            SpectrumStyle::BrailleTrace => self.render_spectrum_braille(
                area,
                buf,
                true,
                reach,
                color,
            ),
        }
    }

    /// Draw the newest row as braille dots, two by four a cell: twice the columns
    /// of the blocks at half their steps. A trace is the outline alone.
    pub fn render_spectrum_braille<H: Fn(i32, usize) -> usize, K: Fn(i32) -> Color>(
        &self,
        area: Rect,
        buf: &mut Screen,
        trace: bool,
        reach: &H,
        color: &K,
    )
        requires
            self@.wf(),
            can_scale(*reach, *color),
            area.x + area.width <= u16::MAX,
            area.y + area.height <= u16::MAX,
        ensures
            self@.braille_shown(area, trace, *reach, *color, *old(buf), *final(buf)),
    {
        proof {
            lemma_fresh(*buf);
        }
        if area.is_empty() || self.bins == 0 || self.rows.len() == 0 {
            return;
        }
        let row: &Vec<i32> = &self.rows[0];
        let width: usize = area.width as usize;
        let sub_h: usize = 4 * (area.height as usize);
        let ghost first = self@.rows[0];
        assert(first == row@);
        proof {
            self.lemma_room(2 * width);
        }
        let db = self.fold(row, 2 * width);
        let mut tops: Vec<usize> = Vec::new();
        let mut shades: Vec<Color> = Vec::new();
        let ghost mut filled: Seq<usize> = Seq::empty();
        let mut i: usize = 0;
        while i < 2 * width
            invariant
                i <= 2 * width,
                width == area.width,
                sub_h == 4 * area.height,
                area.height > 0,
                db@ == folds(first, 2 * width),
                filled.len() == i,
                tops@ == tips(filled, sub_h as int),
                can_scale(*reach, *color),
                forall|j: int|
                    0 <= j < i ==> call_ensures(*reach, (db@[j], sub_h), #[trigger] filled[j]),
            decreases 2 * width - i,
        {
            let n: usize = reach(db[i], sub_h);
            let top: usize = if n >= sub_h {
                0
            } else if n == 0 {
                sub_h - 1
            } else {
                sub_h - n
            };
            tops.push(top);
            proof {
                filled = filled.push(n);
                assert(tops@ =~= tips(filled, sub_h as int));
            }
            i += 1;
        }
        let mut c: usize = 0;
        while c < width
            invariant
                c <= width,
                width == area.width,
                db@ == folds(first, 2 * width),
                shades@.len() == c,
                can_scale(*reach, *color),
                forall|j: int|
                    0 <= j < c ==> call_ensures(
                        *color,
                        (larger(db@[2 * j], db@[2 * j + 1]),),
                        #[trigger] shades@[j],
                    ),
            decreases width - c,
        {
            // One colour a cell, so the two halves share the louder one.
            let left: i32 = db[2 * c];
            let right: i32 = db[2 * c + 1];
            let loud: i32 = if left < right {
                right
            } else {
                left
            };
            shades.push(color(loud));
            c += 1;
        }
        proof {
            assert(braille_scaled(first, area, *reach, *color, filled, shades@));
        }
        draw_braille(area, buf, &tops, &shades, trace);
    }

    /// Draw the newest row in blocks: one bar a column, in eighths of a cell.
    pub fn render_spectrum_blocks<E: Fn(i32, usize) -> usize, K: Fn(i32) -> Color>(
        &self,
        area: Rect,
        buf: &mut Screen,
        eighths: &E,
        color: &K,
    )
        requires
            self@.wf(),
            can_scale(*eighths, *color),
            area.x + area.width <= u16::MAX,
            area.y + area.height <= u16::MAX,
        ensures
            self@.blocks_shown(area, *eighths, *color, *old(buf), *final(buf)),
    {
        proof {
            lemma_fresh(*buf);
        }
        if area.is_empty() || self.bins == 0 || self.rows.len() == 0 {
            return;
        }
        let row: &Vec<i32> = &self.rows[0];
        let width: usize = area.width as usize;
        let steps: usize = 8 * (area.height as usize);
        let ghost first = self@.rows[0];
        assert(first == row@);
        proof {
            self.lemma_room(width as int);
        }
        let db = self.fold(row, width);
        let mut heights: Vec<usize> = Vec::new();
        let mut shades: Vec<Color> = Vec::new();
        let mut x: usize = 0;
        while x < width
            invariant
                x <= width,
                width == area.width,
                steps == 8 * area.height,
                db@ == folds(first, width as int),
                heights@.len() == x,
                shades@.len() == x,
                can_scale(*eighths, *color),
                forall|j: int|
                    0 <= j < x ==> call_ensures(*eighths, (db@[j], steps), #[trigger] heights@[j]),
                forall|j: int|
                    0 <= j < x ==> call_ensures(*color, (db@[j],), #[trigger] shades@[j]),
            decreases width - x,
        {
            heights.push(eighths(db[x], steps));
            shades.push(color(db[x]));
            x += 1;
        }
        proof {
            assert(blocks_scaled(first, area, *eighths, *color, heights@, shades@));
        }
        draw_bars(area, buf, &heights, &shades);
    }

    /// The colours of line `i` of the waterfall.
    fn shade_line<K: Fn(i32) -> Color>(&self, i: usize, width: usize, color: &K) -> (line: Vec<
        Color,
    >)
        requires
            self@.wf(),
            self@.bins > 0,
            width <= u16::MAX,
            forall|db: i32| call_requires(*color, (db,)),
        ensures
            self@.water_line(i as int, width as int, *color, line@),
    {
        let mut line: Vec<Color> = Vec::new();
        let known: bool = i < self.rows.len();
        let ghost v = self@;
        while line.len() < width
            invariant
                v == self@,
                self@.wf(),
                self@.bins > 0,
                width <= u16::MAX,
                known == (i < self.rows@.len()),
                line.len() <= width,
                forall|db: i32| call_requires(*color, (db,)),
                forall|x: int|
                    0 <= x < line.len() ==> if known {
                        call_ensures(
                            *color,
                            (folded(v.rows[i as int], x, width as int),),
                            #[trigger] line@[x],
                        )
                    } else {
                        line@[x] == colors::WATERFALL_EMPTY
                    },
            decreases width - line.len(),
        {
            let x: usize = line.len();
            if known {
                let row: &Vec<i32> = &self.rows[i];
                proof {
                    assert(row@ == v.rows[i as int]);
                    self.lemma_room(width as int);
                }
                let db: i32 = self.column(row, x, width);
                line.push(color(db));
            } else {
                line.push(colors::WATERFALL_EMPTY);
            }
        }
        line
    }

    /// The bins can be counted out onto so many columns.
    proof fn lemma_room(&self, width: int)
        requires
            self@.wf(),
            0 <= width <= 0x2_0000,
        ensures
            width * self@.bins <= usize::MAX,
    {
        let bins = self@.bins;
        assert(width * bins <= 0x2_0000 * bins) by (nonlinear_arith)
            requires
                0 <= width <= 0x2_0000,
                bins >= 0,
        ;
    }

    /// Draw the history, newest at the top, two rows a line.
    pub fn render_waterfall<K: Fn(i32) -> Color>(&self, area: Rect, buf: &mut Screen, color: &K)
        requires
            self@.wf(),
            forall|db: i32| call_requires(*color, (db,)),
            area.x + area.width <= u16::MAX,
            area.y + area.height <= u16::MAX,
        ensures
            self@.waterfall_shown(area, *color, *old(buf), *final(buf)),
    {
        let ghost start = *buf;
        proof {
            lemma_fresh(start);
        }
        if area.is_empty() || self.bins == 0 {
            return;
        }
        let width: usize = area.width as usize;
        let ghost mut lines: Seq<Seq<Color>> = Seq::empty();
        let ghost v = self@;
        let mut y: u16 = 0;
        while y < area.height
            invariant
                y <= area.height,
                v == self@,
                self@.wf(),
                self@.bins > 0,
                width == area.width,
                area.x + area.width <= u16::MAX,
                area.y + area.height <= u16::MAX,
                forall|db: i32| call_requires(*color, (db,)),
                lines.len() == 2 * y,
                v.water_lines(width as int, *color, lines),
                shows(start, *buf, water(area, lines, y as nat)),
            decreases area.height - y,
        {
            let upper = self.shade_line(2 * (y as usize), width, color);
            let lower = self.shade_line(2 * (y as usize) + 1, width, color);
            let ghost before = *buf;
            draw_water_row(area, buf, y, &upper, &lower);
            proof {
                let more = lines.push(upper@).push(lower@);
                lemma_water_prefix(area, lines, more, y as nat);
                lemma_more(
                    start,
                    before,
                    *buf,
                    water(area, lines, y as nat),
                    water_row(area, y as int, upper@, lower@, area.width as nat),
                );
                assert forall|i: int| 0 <= i < more.len() implies v.water_line(
                    i,
                    width as int,
                    *color,
                    #[trigger] more[i],
                ) by {
                    if i < lines.len() {
                        assert(more[i] == lines[i]);
                    }
                }
                lines = more;
            }
            y += 1;
        }
        assert(v.water_lines(area.width as int, *color, lines));
    }

    /// Draw the dB axis: the ceiling at the top, the floor at the bottom.
    pub fn render_spectrum_yaxis<D: Fn(i64, i64, usize, usize) -> String>(
        &self,
        area: Rect,
        buf: &mut Screen,
        label: &D,
    )
        requires
            whole(*old(buf)),
            area.width <= TEXT_MAX,
            area.y + area.height <= u16::MAX,
            margin(area, bounds(*old(buf))),
            can_label(*label, self@.axes.ceil_db as i64, self@.axes.floor_db as i64),
        ensures
            axis_shown(
                area,
                *label,
                self@.axes.ceil_db as i64,
                self@.axes.floor_db as i64,
                *old(buf),
                *final(buf),
            ),
    {
        let top: i64 = self.axes.ceil_db as i64;
        let bottom: i64 = self.axes.floor_db as i64;
        let labels = axis_labels(label, top, bottom, vaxis_marks(area));
        render_vaxis(area, buf, &labels);
        assert(labelled(*label, top, bottom, vertical_marks(area) as usize, labels@));
    }

    /// Draw the time axis: now at the top, the oldest row at the bottom.
    pub fn render_water_yaxis<T: Fn(i64, i64, usize, usize) -> String>(
        &self,
        area: Rect,
        buf: &mut Screen,
        label: &T,
    )
        requires
            whole(*old(buf)),
            area.width <= TEXT_MAX,
            area.y + area.height <= u16::MAX,
            margin(area, bounds(*old(buf))),
            can_label(*label, 0, self@.axes.oldest),
        ensures
            axis_shown(area, *label, 0, self@.axes.oldest, *old(buf), *final(buf)),
    {
        let labels = axis_labels(label, 0, self.axes.oldest, vaxis_marks(area));
        render_vaxis(area, buf, &labels);
        assert(labelled(
            *label,
            0,
            self@.axes.oldest,
            vertical_marks(area) as usize,
            labels@,
        ));
    }

    /// Draw the frequency axis on its one row: as many labels as fit, the ends
    /// flush with the plot.
    pub fn render_mhz_axis<Q: Fn(i64, i64, usize, usize) -> String>(
        &self,
        area: Rect,
        buf: &mut Screen,
        label: &Q,
    )
        requires
            whole(*old(buf)),
            area.x + area.width <= u16::MAX,
            margin(area, bounds(*old(buf))),
            can_label(*label, self@.axes.left, self@.axes.right),
        ensures
            frequencies_shown(
                area,
                *label,
                self@.axes.left,
                self@.axes.right,
                *old(buf),
                *final(buf),
            ),
    {
        proof {
            lemma_fresh(*buf);
        }
        if area.is_empty() {
            return;
        }
        let all = axis_labels(label, self.axes.left, self.axes.right, MARKS);
        let longest_label: usize = widest(&all);
        let shown: usize = freq_marks(area.width, longest_label);
        proof {
            lemma_marks_fit(area.width as int, longest_label as int);
        }
        let labels = axis_labels(label, self.axes.left, self.axes.right, shown);
        draw_mhz_axis(area, buf, &labels);
        assert(labelled(*label, self@.axes.left, self@.axes.right, MARKS, all@));
        assert(labelled(
            *label,
            self@.axes.left,
            self@.axes.right,
            frequency_marks(area.width as int, longest(all@)) as usize,
            labels@,
        ));
    }

    /// Draw a frequency on both plots.
    fn mark(&self, l: SignalLayout, hz: u32, color: Color, states: &TuiStates, buf: &mut Screen)
        requires
            l.spec.x + l.spec.width <= u16::MAX,
            l.water.x + l.spec.width <= u16::MAX,
            l.spec.y + l.spec.height <= u16::MAX,
            l.water.y + l.water.height <= u16::MAX,
        ensures
            shows(*old(buf), *final(buf), marks(l, hz, color, *states)),
    {
        let ghost start = *buf;
        proof {
            lemma_fresh(start);
            lemma_column_on_plot(
                hz as int,
                l.spec.width as int,
                states.center_freq as int,
                states.sample_rate as int,
            );
        }
        if let Some(x) = freq_col(hz, l.spec.width, states.center_freq, states.sample_rate) {
            render_cursor(l.spec, x, color, buf);
            let ghost between = *buf;
            render_cursor(l.water, x, color, buf);
            proof {
                lemma_more(
                    start,
                    between,
                    *buf,
                    cursor(l.spec, x as int, color),
                    cursor(l.water, x as int, color),
                );
            }
        }
    }
}

/// What marking a frequency on both plots amounts to; nothing where it is off
/// the plot.
pub open spec fn marks(l: SignalLayout, hz: u32, color: Color, states: TuiStates) -> Seq<Stroke> {
    match frequency_column(
        hz as int,
        l.spec.width as int,
        states.center_freq as int,
        states.sample_rate as int,
    ) {
        Some(x) => cursor(l.spec, x, color) + cursor(l.water, x, color),
        None => Seq::empty(),
    }
}

/// A vertical axis is on the screen.
pub open spec fn axis_shown<F: Fn(i64, i64, usize, usize) -> String>(
    area: Rect,
    label: F,
    top: i64,
    bottom: i64,
    before: Screen,
    after: Screen,
) -> bool {
    exists|labels: Seq<String>|
        {
            &&& #[trigger] labelled(label, top, bottom, vertical_marks(area) as usize, labels)
            &&& shows(before, after, vertical_axis(area, texts(labels)))
        }
}

/// The frequency axis is on the screen.
pub open spec fn frequencies_shown<F: Fn(i64, i64, usize, usize) -> String>(
    area: Rect,
    label: F,
    left: i64,
    right: i64,
    before: Screen,
    after: Screen,
) -> bool {
    if area.spec_is_empty() {
        shows(before, after, Seq::empty())
    } else {
        exists|all: Seq<String>, labels: Seq<String>|
            {
                &&& #[trigger] labelled(label, left, right, MARKS, all)
                &&& #[trigger] labelled(
                    label,
                    left,
                    right,
                    frequency_marks(area.width as int, longest(all)) as usize,
                    labels,
                )
                &&& shows(before, after, frequency_axis(area, texts(labels)))
            }
    }
}

/// How magnitudes, frequencies and times look on the screen.
pub struct Scales<D, T, Q, H, E, K> {
    /// The label of a mark of the dB axis, whose ends are in dB.
    pub db_label: D,
    /// The label of a mark of the time axis, whose ends are in milliseconds.
    pub time_label: T,
    /// The label of a mark of the frequency axis, whose ends are in halves of a
    /// hertz.
    pub freq_label: Q,
    /// How many of so many braille rows a magnitude fills.
    pub reach: H,
    /// How many of so many eighths of a block a magnitude fills.
    pub eighths: E,
    /// The colour of a magnitude.
    pub color: K,
}

/// How the panel is framed: the two plots share one dark well.
pub open spec fn well() -> Chrome {
    Chrome {
        style: Style::ground(colors::BG_WELL),
        title_style: Style::ink(colors::TITLE),
        border_style: Style::ink(colors::BORDER),
    }
}

impl SignalState {
    /// The panel, step by step: the frame, the dB axis, the spectrum, the
    /// frequency axis, the time axis, the waterfall, and on top of them the
    /// cursors, the channel first, so that of two on one column the centre is
    /// seen.
    pub open spec fn panel_drawn<
        D: Fn(i64, i64, usize, usize) -> String,
        T: Fn(i64, i64, usize, usize) -> String,
        Q: Fn(i64, i64, usize, usize) -> String,
        H: Fn(i32, usize) -> usize,
        E: Fn(i32, usize) -> usize,
        K: Fn(i32) -> Color,
    >(
        self,
        area: Rect,
        states: TuiStates,
        scales: Scales<D, T, Q, H, E, K>,
        before: Screen,
        after: Screen,
        l: SignalLayout,
        step: Seq<Screen>,
    ) -> bool {
        &&& lays_out(area, l)
        &&& shows(
            before,
            step[0],
            seq![Stroke::Block { title: "Spectrum \u{b7} MHz"@, chrome: well(), area }],
        )
        &&& axis_shown(
            l.spec_axis,
            scales.db_label,
            self.axes.ceil_db as i64,
            self.axes.floor_db as i64,
            step[0],
            step[1],
        )
        &&& self.spectrum_shown(
            l.spec,
            scales.reach,
            scales.eighths,
            scales.color,
            step[1],
            step[2],
        )
        &&& frequencies_shown(
            l.freq_axis,
            scales.freq_label,
            self.axes.left,
            self.axes.right,
            step[2],
            step[3],
        )
        &&& axis_shown(
            l.water_axis,
            scales.time_label,
            0,
            self.axes.oldest,
            step[3],
            step[4],
        )
        &&& self.waterfall_shown(l.water, scales.color, step[4], step[5])
        &&& shows(
            step[5],
            after,
            marks(l, states.tuned_freq, colors::CURSOR_TUNED, states) + marks(
                l,
                states.center_freq,
                colors::CURSOR_CENTER,
                states,
            ),
        )
    }

    /// The panel is on the screen.
    pub open spec fn panel_shown<
        D: Fn(i64, i64, usize, usize) -> String,
        T: Fn(i64, i64, usize, usize) -> String,
        Q: Fn(i64, i64, usize, usize) -> String,
        H: Fn(i32, usize) -> usize,
        E: Fn(i32, usize) -> usize,
        K: Fn(i32) -> Color,
    >(
        self,
        area: Rect,
        states: TuiStates,
        scales: Scales<D, T, Q, H, E, K>,
        before: Screen,
        after: Screen,
    ) -> bool {
        exists|l: SignalLayout, step: Seq<Screen>| #[trigger]
            self.panel_drawn(area, states, scales, before, after, l, step)
    }

    /// The panel is on the screen in this layout.
    pub open spec fn panel_shown_in<
        D: Fn(i64, i64, usize, usize) -> String,
        T: Fn(i64, i64, usize, usize) -> String,
        Q: Fn(i64, i64, usize, usize) -> String,
        H: Fn(i32, usize) -> usize,
        E: Fn(i32, usize) -> usize,
        K: Fn(i32) -> Color,
    >(
        self,
        area: Rect,
        states: TuiStates,
        scales: Scales<D, T, Q, H, E, K>,
        before: Screen,
        after: Screen,
        l: SignalLayout,
    ) -> bool {
        exists|step: Seq<Screen>| #[trigger]
            self.panel_drawn(area, states, scales, before, after, l, step)
    }

    /// The panel can be drawn with these scales.
    pub open spec fn can_draw<
        D: Fn(i64, i64, usize, usize) -> String,
        T: Fn(i64, i64, usize, usize) -> String,
        Q: Fn(i64, i64, usize, usize) -> String,
        H: Fn(i32, usize) -> usize,
        E: Fn(i32, usize) -> usize,
        K: Fn(i32) -> Color,
    >(self, scales: Scales<D, T, Q, H, E, K>) -> bool {
        &&& can_label(scales.db_label, self.axes.ceil_db as i64, self.axes.floor_db as i64)
        &&& can_label(scales.time_label, 0, self.axes.oldest)
        &&& can_label(scales.freq_label, self.axes.left, self.axes.right)
        &&& can_scale(scales.reach, scales.color)
        &&& can_scale(scales.eighths, scales.color)
    }
}

impl SignalView {
    /// Draw the panel.
    pub fn render<
        D: Fn(i64, i64, usize, usize) -> String,
        T: Fn(i64, i64, usize, usize) -> String,
        Q: Fn(i64, i64, usize, usize) -> String,
        H: Fn(i32, usize) -> usize,
        E: Fn(i32, usize) -> usize,
        K: Fn(i32) -> Color,
    >(
        &self,
        area: Rect,
        buf: &mut Screen,
        states: &TuiStates,
        scales: &Scales<D, T, Q, H, E, K>,
    )
        requires
            self@.wf(),
            self@.can_draw(*scales),
            whole(*old(buf)),
            area.x + area.width + Y_AXIS_WIDTH <= u16::MAX,
            area.y + area.height <= u16::MAX,
        ensures
            self@.panel_shown(area, *states, *scales, *old(buf), *final(buf)),
    {
        let l = SignalView::layout(area);
        self.render_in(area, l, buf, states, scales);
    }

    /// Draw the panel in a layout of it.
    pub fn render_in<
        D: Fn(i64, i64, usize, usize) -> String,
        T: Fn(i64, i64, usize, usize) -> String,
        Q: Fn(i64, i64, usize, usize) -> String,
        H: Fn(i32, usize) -> usize,
        E: Fn(i32, usize) -> usize,
        K: Fn(i32) -> Color,
    >(
        &self,
        area: Rect,
        l: SignalLayout,
        buf: &mut Screen,
        states: &TuiStates,
        scales: &Scales<D, T, Q, H, E, K>,
    )
        requires
            self@.wf(),
            self@.can_draw(*scales),
            lays_out(area, l),
            whole(*old(buf)),
            area.x + area.width + Y_AXIS_WIDTH <= u16::MAX,
            area.y + area.height <= u16::MAX,
        ensures
            self@.panel_shown_in(area, *states, *scales, *old(buf), *final(buf), l),
            whole(*final(buf)),
    {
        let ghost start = *buf;
        proof {
            reveal_strlit("Spectrum \u{b7} MHz");
            lemma_fresh(start);
        }
        draw_block(
            buf,
            "Spectrum \u{b7} MHz",
            Chrome {
                style: Style::new().bg(colors::BG_WELL),
                title_style: colors::pane_title(),
                border_style: colors::pane_border(false),
            },
            area,
        );
        let ghost framed = *buf;
        proof {
            let frame = Stroke::Block { title: "Spectrum \u{b7} MHz"@, chrome: well(), area };
            lemma_next(start, start, framed, Seq::empty(), frame);
            assert(Seq::<Stroke>::empty().push(frame) =~= seq![frame]);
            pieces_lie_inside_the_border(area, l);
            lemma_cursor_room(area, l);
        }
        self.render_spectrum_yaxis(l.spec_axis, buf, &scales.db_label);
        let ghost levelled = *buf;
        self.render_spectrum(l.spec, buf, &scales.reach, &scales.eighths, &scales.color);
        let ghost plotted = *buf;
        proof {
            lemma_stays_whole(framed, levelled);
            lemma_stays_whole(levelled, plotted);
        }
        self.render_mhz_axis(l.freq_axis, buf, &scales.freq_label);
        let ghost scaled = *buf;
        proof {
            lemma_stays_whole(plotted, scaled);
        }
        self.render_water_yaxis(l.water_axis, buf, &scales.time_label);
        let ghost timed = *buf;
        self.render_waterfall(l.water, buf, &scales.color);
        let ghost flowing = *buf;
        self.mark(l, states.tuned_freq, colors::CURSOR_TUNED, states, buf);
        let ghost tuned = *buf;
        self.mark(l, states.center_freq, colors::CURSOR_CENTER, states, buf);
        proof {
            lemma_more(
                flowing,
                tuned,
                *buf,
                marks(l, states.tuned_freq, colors::CURSOR_TUNED, *states),
                marks(l, states.center_freq, colors::CURSOR_CENTER, *states),
            );
            lemma_stays_whole(start, *buf);
            let step = seq![framed, levelled, plotted, scaled, timed, flowing];
            assert(self@.panel_drawn(area, *states, *scales, start, *buf, l, step));
        }
    }
}

/// A column of the spectrum can be counted from the left edge of the waterfall,
/// and no vertical axis is wider than the gutter.
proof fn lemma_cursor_room(area: Rect, l: SignalLayout)
    requires
        lays_out(area, l),
        area.x + area.width + Y_AXIS_WIDTH <= u16::MAX,
        area.y + area.height <= u16::MAX,
    ensures
        l.water.x + l.spec.width <= u16::MAX,
        l.spec_axis.width <= Y_AXIS_WIDTH,
        l.water_axis.width <= Y_AXIS_WIDTH,
{
    pieces_lie_inside_the_border(area, l);
    if area.spec_inner().width >= Y_AXIS_WIDTH {
        plots_share_their_columns(area, l);
    }
}

/// What is drawn of the first rows depends on their lines alone.
proof fn lemma_water_prefix(area: Rect, lines: Seq<Seq<Color>>, more: Seq<Seq<Color>>, rows: nat)
    requires
        2 * rows <= lines.len() <= more.len(),
        forall|i: int| 0 <= i < lines.len() ==> more[i] == lines[i],
    ensures
        water(area, more, rows) == water(area, lines, rows),
    decreases rows,
{
    if rows > 0 {
        lemma_water_prefix(area, lines, more, (rows - 1) as nat);
    }
}

} // verus!
