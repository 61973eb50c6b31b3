//! What the calls of the compact radio do.

use ratatui::buffer::Buffer as Screen;
use vstd::prelude::*;

use crate::compact::app_states::AppStates;
use crate::compact::control_signal::CtrlSignal;
use crate::compact::detectors::{
    AmEnvelope, DcBlocker, Deemphasis, FmDiscriminator, IqDcBlocker,
};
use crate::compact::receive::{
    samples, Detector, Receiver, ReceiverView, IQ_BLOCK, IQ_SLOTS, RING_BLOCK, RING_SLOTS,
};
use crate::compact::source::{handle, setup};
use crate::compact::stats_view::{
    frame_stroke, other_frames, quarters, tuner_laid_out, tuner_shown, tuner_strokes, Field,
    Reading, StatsView, TunerView,
};
use crate::compact::stream::{receiver_demodulates_the_stream, Signals};
use crate::compact::tui::{draw, on_key, split, stats_frame, Turn};
use crate::source::Command;
use crate::spmc::calls::{pushes_follow_one_another, written};
use crate::spmc::laws::push_all;
use crate::spmc::RingProducer;
use crate::text::decimal;
use crate::tui::colors;
use crate::tui::info_view::texts;
use crate::tui::paint::{
    right_behind, right_below, shows, side_by_side, stacked, Chrome, Color, Rect, Stroke, Style,
};
use crate::tui::signal_view::{Scales, SignalView};
use crate::tui::tui::KeyCode;
use crate::tui::tui_states::{TuiStates, TunerMode};

verus! {

/// `q` and Esc leave, the vertical arrows move the floor by two dB, and no other key does
/// anything.
pub proof fn keys_of_the_compact_radio(code: KeyCode, t: Turn)
    requires
        call_ensures(on_key, (code,), t),
    ensures
        t is Quit <==> code is Esc || code == KeyCode::Char('q'),
        code is Up ==> t == Turn::Floor(2),
        code is Down ==> t == Turn::Floor(-2i32),
        t is Floor ==> code is Up || code is Down,
{
}

/// A gain is shown to the nearest dB, and never below 0.
pub proof fn gain_is_shown_to_the_nearest_db(s: &mut AppStates, tenths: i32)
    requires
        call_ensures(AppStates::show_gain, (s, tenths), ()),
        tenths + 5 <= i32::MAX,
    ensures
        tenths >= 0 ==> -5 <= 10 * final(s).gain_db - tenths <= 5,
        tenths >= 0 && tenths % 10 == 5 ==> 10 * final(s).gain_db == tenths + 5,
        tenths < 0 ==> final(s).gain_db == 0,
        *final(s) == (AppStates { gain_db: final(s).gain_db, ..*old(s) }),
{
}

/// A high-pass filter answers from its sample, the one before and its own last answer,
/// on I and on Q each from its own; a discriminator from its pair and the one before;
/// a pole from its sample and its own last answer.
pub proof fn detectors_carry_one_step<
    S: Copy,
    H: Fn(S, S, S) -> S,
    A: Fn(S, S, S, S) -> S,
    E: Fn(S, S) -> S,
>(
    b: &mut DcBlocker<S>,
    x: S,
    y: S,
    p: &mut IqDcBlocker<S>,
    i: S,
    q: S,
    r: (S, S),
    f: &mut FmDiscriminator<S>,
    v: S,
    d: &mut Deemphasis<S>,
    z: S,
    highpass: H,
    angle: A,
    pole: E,
)
    requires
        call_ensures(DcBlocker::<S>::process::<H>, (b, x, &highpass), y),
        call_ensures(IqDcBlocker::<S>::process::<H>, (p, i, q, &highpass), r),
        call_ensures(FmDiscriminator::<S>::process::<A>, (f, i, q, &angle), v),
        call_ensures(Deemphasis::<S>::process::<E>, (d, x, &pole), z),
    ensures
        call_ensures(highpass, (x, old(b).x_prev, old(b).y_prev), y),
        final(b).x_prev == x && final(b).y_prev == y,
        call_ensures(highpass, (i, old(p).i_blocker.x_prev, old(p).i_blocker.y_prev), r.0),
        call_ensures(highpass, (q, old(p).q_blocker.x_prev, old(p).q_blocker.y_prev), r.1),
        final(p).i_blocker.x_prev == i && final(p).i_blocker.y_prev == r.0,
        final(p).q_blocker.x_prev == q && final(p).q_blocker.y_prev == r.1,
        call_ensures(angle, (i, q, old(f).prev_i, old(f).prev_q), v),
        final(f).prev_i == i && final(f).prev_q == q,
        call_ensures(pole, (x, old(d).state), z),
        final(d).state == z,
{
}

/// An envelope is measured against the carrier that it has already moved.
pub proof fn envelope_is_measured_against_the_new_carrier<
    S: Copy,
    E: Fn(S, S) -> S,
    T: Fn(S, S) -> S,
    D: Fn(S, S) -> S,
>(
    a: &mut AmEnvelope<S>,
    i: S,
    q: S,
    envelope: E,
    track: T,
    depth: D,
    out: S,
)
    requires
        call_ensures(AmEnvelope::<S>::process::<E, T, D>, (a, i, q, &envelope, &track, &depth), out),
    ensures
        exists|env: S|
            {
                &&& #[trigger] call_ensures(envelope, (i, q), env)
                &&& call_ensures(track, (env, old(a).carrier), final(a).carrier)
                &&& call_ensures(depth, (env, final(a).carrier), out)
            },
{
}

proof fn lemma_samples<S>(outs: Seq<Option<S>>, all: Seq<S>, n: int)
    requires
        0 <= n <= outs.len(),
        all.len() >= outs.len() as int / 50,
        forall|k: int|
            0 <= k < outs.len() ==> #[trigger] outs[k] == if (k + 1) % 50 == 0 {
                Some(all[k / 50])
            } else {
                None
            },
    ensures
        samples(outs.take(n)) == all.take(n / 50),
    decreases n,
{
    let some = outs.take(n);
    if n == 0 {
        assert(samples(some) =~= all.take(0));
    } else {
        lemma_samples(outs, all, n - 1);
        assert(some.drop_last() =~= outs.take(n - 1));
        assert(some.last() == outs[n - 1]);
        if n % 50 == 0 {
            assert((n - 1) / 50 == n / 50 - 1);
            assert(samples(some) =~= all.take(n / 50));
        } else {
            assert((n - 1) / 50 == n / 50);
        }
    }
}

/// A receiver that starts from silence hands the speaker all of what it makes of the
/// bytes, in order, and the spectrum the bytes as they came.
pub proof fn receiver_hands_on_what_it_makes<S: Copy + Default, B, H, P, M, A, E, V>(
    silence: S,
    fresh: Receiver<S>,
    r: &mut Receiver<S>,
    bytes: &[u8],
    d: Detector<B, H, P, M, A, E, V>,
    speaker: &mut RingProducer<S, RING_SLOTS, RING_BLOCK>,
    spectrum: &mut RingProducer<u8, IQ_SLOTS, IQ_BLOCK>,
) where
    B: Fn(u8) -> S,
    H: Fn(S, S, S) -> S,
    P: Fn(S, S) -> S,
    M: Fn(S) -> S,
    A: Fn(S, S, S, S) -> S,
    E: Fn(S, S) -> S,
    V: Fn(S) -> S,

    requires
        call_ensures(Receiver::<S>::new, (silence,), fresh),
        *old(r) == fresh,
        old(speaker).wf(),
        old(spectrum).wf(),
        !old(speaker)@.blocking,
        !old(spectrum)@.blocking,
        call_ensures(
            Receiver::<S>::receive::<B, H, P, M, A, E, V>,
            (r, bytes, &d, speaker, spectrum),
            (),
        ),
    ensures
        exists|t: Signals<S>|
            {
                &&& #[trigger] d.demodulates(bytes@, silence, t)
                &&& written(final(speaker)@) == written(old(speaker)@) + t.out
                &&& t.out.len() == bytes@.len() / 2 / 50
            },
        bytes@.len() == IQ_BLOCK ==> final(spectrum)@.ring.published == old(
            spectrum,
        )@.ring.published.push(bytes@),
        bytes@.len() != IQ_BLOCK ==> final(spectrum)@.ring == old(spectrum)@.ring,
{
    let (states, outs) = choose|states: Seq<ReceiverView<S>>, outs: Seq<Option<S>>|
        {
            &&& #[trigger] d.runs(bytes@, states, outs)
            &&& states[0] == old(r)@
            &&& states.last() == final(r)@
            &&& final(speaker)@ == push_all(old(speaker)@, samples(outs), RING_BLOCK as nat)
        };
    let t = receiver_demodulates_the_stream(d, bytes@, states, outs, silence);
    crate::compact::stream::lemma_lengths(d, bytes@, silence, t);
    lemma_samples(outs, t.out, outs.len() as int);
    assert(outs.take(outs.len() as int) =~= outs);
    assert(t.out.take(t.out.len() as int) =~= t.out);
    pushes_follow_one_another(
        old(speaker)@,
        samples(outs),
        RING_SLOTS as nat,
        RING_BLOCK as nat,
    );
    let p = old(spectrum)@;
    vstd::arithmetic::div_mod::lemma_mod_bound(p.ring.head as int, IQ_SLOTS as int);
}

/// The calls of the panel do what its rows say: the row under the cursor is adjusted, and
/// the cursor moved, and so it is from the panel that holds it.
pub proof fn panel_adjusts_its_row(
    f: Field,
    v: &mut TunerView,
    dir: i32,
    sig: Option<CtrlSignal>,
    w: &mut TunerView,
    hear: Option<CtrlSignal>,
    u: &mut TunerView,
    a: &mut StatsView,
    from: Option<CtrlSignal>,
    b: &mut StatsView,
)
    requires
        call_ensures(Field::adjust, (f, v, dir), sig),
        old(w).wf(),
        call_ensures(TunerView::adjust, (w, dir), hear),
        old(u).wf(),
        call_ensures(TunerView::select, (u, dir), ()),
        old(a).tuner_view.wf(),
        call_ensures(StatsView::adjust, (a, dir), from),
        old(b).tuner_view.wf(),
        call_ensures(StatsView::select, (b, dir), ()),
    ensures
        (*final(v), sig) == f.spec_adjust(*old(v), dir as int),
        (*final(w), hear) == Field::ALL@[old(w).selected as int].spec_adjust(*old(w), dir as int),
        *final(u) == old(u).spec_select(dir as int),
        (final(a).tuner_view, from) == Field::ALL@[
            old(a).tuner_view.selected as int
        ].spec_adjust(old(a).tuner_view, dir as int),
        final(b).tuner_view == old(b).tuner_view.spec_select(dir as int),
{
}

/// A new panel shows the settings it is given, with the cursor on the first.
pub proof fn new_panel_shows_its_settings(
    center_freq: u32,
    step: u32,
    gain_db: u32,
    bw: u32,
    ppm: u32,
    v: TunerView,
    s: StatsView,
)
    requires
        call_ensures(TunerView::new, (center_freq, step, gain_db, bw, ppm), v),
        call_ensures(StatsView::new, (center_freq, step, gain_db, bw, ppm), s),
    ensures
        v.center_freq == center_freq,
        v.step == step,
        v.gain_db == gain_db,
        v.bw == bw,
        v.ppm == ppm,
        v.selected == 0,
        s.tuner_view == v,
{
}

/// How the readings read: the number, and its unit behind it.
pub proof fn readings_have_their_units(n: u32)
    ensures
        Reading::Hz(n).spec_text() == if n < 1_000 {
            Some(decimal(n as nat) + seq![' ', 'H', 'z'])
        } else {
            None
        },
        Reading::Mhz(n).spec_text() is None,
        Reading::Db(n).spec_text() == Some(decimal(n as nat) + seq![' ', 'd', 'B']),
        Reading::Plain(n).spec_text() == Some(decimal(n as nat)),
        Field::Freq.spec_label() == "Freq"@,
        Field::Step.spec_label() == "Step"@,
        Field::Gain.spec_label() == "Gain"@,
        Field::Bw.spec_label() == "BW"@,
        Field::Ppm.spec_label() == "PPM"@,
{
    reveal_strlit(" Hz");
    reveal_strlit(" dB");
    assert(" Hz"@ =~= seq![' ', 'H', 'z']);
    assert(" dB"@ =~= seq![' ', 'd', 'B']);
}

/// Each row is drawn behind those above it: a marker in the first column where the cursor
/// is, the label in the second and the value at the right of the third.
pub proof fn rows_are_drawn_in_order(
    k: nat,
    selected: int,
    columns: Seq<Seq<Rect>>,
    values: Seq<Seq<char>>,
)
    requires
        k < 5,
    ensures
        ({
            let above = tuner_strokes(k, selected, columns, values);
            let s = tuner_strokes(k + 1, selected, columns, values);
            let n = s.len() as int;
            let here = selected == k;
            &&& tuner_strokes(0, selected, columns, values).len() == 0
            &&& n == above.len() + if here {
                3int
            } else {
                2
            }
            &&& s.take(above.len() as int) == above
            &&& here ==> s[n - 3] == (Stroke::Line {
                text: "\u{25b8}"@,
                style: Style { fg: Some(colors::ORANGE_GLOW), bg: None, modifiers: 0 },
                area: columns[k as int][0],
            })
            &&& s[n - 2] is Line && s[n - 2]->Line_text == Field::ALL@[k as int].spec_label()
                && s[n - 2]->Line_area == columns[k as int][1]
            &&& s[n - 2]->Line_style == (Style {
                fg: Some(
                    if here {
                        colors::ORANGE_BASE
                    } else {
                        colors::CYAN_BASE
                    },
                ),
                bg: None,
                modifiers: 0,
            })
            &&& s[n - 1] is RightLine && s[n - 1]->RightLine_text == values[k as int]
                && s[n - 1]->RightLine_area == columns[k as int][2]
            &&& here ==> s[n - 1]->RightLine_style == (Style {
                fg: Some(colors::ORANGE_GLOW),
                bg: None,
                modifiers: 1,
            })
            &&& !here ==> s[n - 1]->RightLine_style == (Style { fg: None, bg: None, modifiers: 0 })
        }),
{
    let above = tuner_strokes(k, selected, columns, values);
    let s = tuner_strokes(k + 1, selected, columns, values);
    assert(s.take(above.len() as int) =~= above);
}

/// Below the settings stand three empty frames.
pub proof fn other_panels_are_framed(parts: Seq<Rect>)
    ensures
        ({
            let s = other_frames(parts);
            let bare = Style { fg: None, bg: None, modifiers: 0 };
            let chrome = Chrome { style: bare, title_style: bare, border_style: bare };
            &&& s.len() == 3
            &&& s[0] == (Stroke::Block { title: "Info"@, chrome, area: parts[1] })
            &&& s[1] == (Stroke::Block { title: "Mode"@, chrome, area: parts[2] })
            &&& s[2] == (Stroke::Block { title: "Shortcut"@, chrome, area: parts[3] })
        }),
{
}

/// The calls of the source do what its commands say.
pub proof fn source_follows_its_signals(
    rate: u32,
    center: u32,
    bandwidth: u32,
    plan: Vec<Command>,
    sig: CtrlSignal,
    c: Command,
)
    requires
        call_ensures(setup, (rate, center, bandwidth), plan),
        call_ensures(handle, (sig,), c),
    ensures
        plan@ == crate::compact::source::setup_commands(rate, center, bandwidth),
        c == crate::compact::source::command_for(sig),
{
}

/// The compact radio starts with the settings it is given, in wide-band FM.
pub proof fn compact_radio_starts_so(
    sample_rate: u32,
    step: u32,
    center_freq: u32,
    gain_db: u32,
    bandwidth: u32,
    ppm: u32,
    s: AppStates,
    m: &TunerMode,
)
    requires
        call_ensures(
            AppStates::new,
            (sample_rate, step, center_freq, gain_db, bandwidth, ppm),
            s,
        ),
        call_ensures(AppStates::tuner_mode, (&s,), m),
    ensures
        s.sample_rate == sample_rate,
        s.step == step,
        s.center_freq == center_freq,
        s.gain_db == gain_db,
        s.bandwidth == bandwidth,
        s.ppm == ppm,
        *m is WbFm,
{
}

/// The panels are drawn as their models say: the settings with their values in words,
/// the cursor on the one selected, and the frames below them; and the signal beside
/// the statistics.
pub proof fn panels_are_drawn_so<
    F: Fn(Reading) -> String,
    D: Fn(i64, i64, usize, usize) -> String,
    T: Fn(i64, i64, usize, usize) -> String,
    Q: Fn(i64, i64, usize, usize) -> String,
    H: Fn(i32, usize) -> usize,
    E: Fn(i32, usize) -> usize,
    K: Fn(i32) -> Color,
>(
    v: &TunerView,
    area: Rect,
    a: &mut Screen,
    words: F,
    s: &StatsView,
    b: &mut Screen,
    c: &mut Screen,
    signal: &SignalView,
    states: TuiStates,
    scales: Scales<D, T, Q, H, E, K>,
)
    requires
        call_ensures(TunerView::render::<F>, (v, area, a, &words), ()),
        call_ensures(StatsView::render::<F>, (s, area, b, &words), ()),
        call_ensures(draw::<D, T, Q, H, E, K>, (area, c, signal, &states, &scales), ()),
    ensures
        exists|values: Seq<String>| #[trigger]
            v.worded(words, values) && tuner_shown(
                *old(a),
                *final(a),
                area,
                v.selected as int,
                texts(values),
            ),
        exists|parts: Seq<Rect>, values: Seq<String>, mid: Screen| #[trigger]
            stacked(area, quarters(), parts) && s.tuner_view.worded(words, values)
                && #[trigger] tuner_shown(
                *old(b),
                mid,
                parts[0],
                s.tuner_view.selected as int,
                texts(values),
            ) && shows(mid, *final(b), other_frames(parts)),
        exists|stats: Rect, view: Rect, framed: Screen|
            {
                &&& #[trigger] split(area, stats, view)
                &&& #[trigger] shows(*old(c), framed, seq![stats_frame(stats)])
                &&& signal@.panel_shown(view, states, scales, framed, *final(c))
            },
{
}

/// The panel of the settings: its frame, and inside it the five rows in their order, one
/// below the other where there is room, each with its columns side by side.
pub proof fn settings_are_seen(
    before: Screen,
    after: Screen,
    area: Rect,
    selected: int,
    values: Seq<Seq<char>>,
) -> (r: (Seq<Rect>, Seq<Seq<Rect>>))
    requires
        tuner_shown(before, after, area, selected, values),
    ensures
        area.width <= 2 || area.height <= 2 ==> shows(
            before,
            after,
            seq![frame_stroke("Tuner"@, area)],
        ),
        area.width > 2 && area.height > 2 ==> {
            &&& shows(
                before,
                after,
                seq![frame_stroke("Tuner"@, area)] + tuner_strokes(5, selected, r.1, values),
            )
            &&& r.0.len() == 5
            &&& r.1.len() == 5
            &&& r.0[0].y == area.spec_inner().y
            &&& forall|i: int| 0 < i < 5 ==> (#[trigger] r.0[i]).y == r.0[i - 1].y + r.0[i - 1].height
            &&& forall|i: int|
                0 <= i < 5 ==> (#[trigger] r.1[i]).len() == 3 && r.1[i][0].y == r.0[i].y
                    && r.1[i][0].x == r.0[i].x && r.1[i][1].x == r.1[i][0].x + r.1[i][0].width
                    && r.1[i][2].x == r.1[i][1].x + r.1[i][1].width
        },
{
    if area.width > 2 && area.height > 2 {
        let (rows, columns) = choose|rows: Seq<Rect>, columns: Seq<Seq<Rect>>| #[trigger]
            tuner_laid_out(area.spec_inner(), rows, columns) && shows(
                before,
                after,
                seq![frame_stroke("Tuner"@, area)] + tuner_strokes(5, selected, columns, values),
            );
        assert forall|i: int| 0 < i < 5 implies (#[trigger] rows[i]).y == rows[i - 1].y
            + rows[i - 1].height by {
            assert(right_below(rows[i - 1], rows[i]));
        }
        assert forall|i: int| 0 <= i < 5 implies (#[trigger] columns[i]).len() == 3
            && columns[i][0].y == rows[i].y && columns[i][0].x == rows[i].x && columns[i][1].x
            == columns[i][0].x + columns[i][0].width && columns[i][2].x == columns[i][1].x
            + columns[i][1].width by {
            assert(side_by_side(
                rows[i],
                crate::compact::stats_view::tuner_columns(),
                columns[i],
            ));
            assert(right_behind(columns[i][0], columns[i][1]));
            assert(right_behind(columns[i][1], columns[i][2]));
        }
        (rows, columns)
    } else {
        (Seq::empty(), Seq::empty())
    }
}

/// Labels, values and texts of the rows are what their models say, and one pair of bytes
/// goes through the chain as a run of one.
pub proof fn rows_and_pairs_do_as_they_say<S: Copy, B, H, P, M, A, E, V>(
    f: Field,
    v: TunerView,
    label: &'static str,
    value: Reading,
    text: Option<String>,
    r: &mut Receiver<S>,
    i: u8,
    q: u8,
    d: Detector<B, H, P, M, A, E, V>,
    out: Option<S>,
) where
    B: Fn(u8) -> S,
    H: Fn(S, S, S) -> S,
    P: Fn(S, S) -> S,
    M: Fn(S) -> S,
    A: Fn(S, S, S, S) -> S,
    E: Fn(S, S) -> S,
    V: Fn(S) -> S,

    requires
        0 <= old(r)@.decim.iq_n < 10,
        0 <= old(r)@.decim.post_n < 5,
        call_ensures(Field::label, (f,), label),
        call_ensures(Field::value, (f, &v), value),
        call_ensures(Reading::text, (value,), text),
        call_ensures(
            Receiver::<S>::step::<B, H, P, M, A, E, V>,
            (r, i, q, &d),
            out,
        ),
    ensures
        label@ == f.spec_label(),
        value == f.spec_value(v),
        text matches Some(own) ==> value.spec_text() == Some(own@),
        text is None <==> value.spec_text() is None,
        d.steps(old(r)@, i, q, final(r)@, out),
        out is Some ==> old(r)@.decim.iq_n == 9 && old(r)@.decim.post_n == 4,
        old(r)@.decim.iq_n < 9 ==> final(r)@.decim.iq_n == old(r)@.decim.iq_n + 1 && final(r)@.prev
            == old(r)@.prev && final(r)@.last_out == old(r)@.last_out,
{
}

/// New detectors have heard only silence.
pub proof fn new_detectors_are_silent<S: Copy>(
    silence: S,
    b: DcBlocker<S>,
    p: IqDcBlocker<S>,
    f: FmDiscriminator<S>,
    d: Deemphasis<S>,
    a: AmEnvelope<S>,
)
    requires
        call_ensures(DcBlocker::<S>::new, (silence,), b),
        call_ensures(IqDcBlocker::<S>::new, (silence,), p),
        call_ensures(FmDiscriminator::<S>::new, (silence,), f),
        call_ensures(Deemphasis::<S>::new, (silence,), d),
        call_ensures(AmEnvelope::<S>::new, (silence,), a),
    ensures
        b.x_prev == silence && b.y_prev == silence,
        p.i_blocker == b && p.q_blocker == b,
        f.prev_i == silence && f.prev_q == silence,
        d.state == silence,
        a.carrier == silence,
{
}

} // verus!
