//! The palette, in two layers.
//!
//! Ink is named by hue; nothing outside this file should use it directly. Roles
//! say what a colour means on screen, and the panels use those.
//!
//! The governing rule: cyan is data, orange is the UI talking. Orange never
//! appears in the spectrum or the waterfall, so an accent can never be mistaken
//! for a signal, and a warning is the only warm thing on screen.

use vstd::prelude::*;

use crate::tui::paint::{Chrome, Color, Style};

verus! {

pub const BG_VOID: Color = (0x01, 0x01, 0x01);

pub const BG_PRIMARY: Color = (0x07, 0x14, 0x1A);

pub const BG_PANEL: Color = (0x10, 0x10, 0x10);

pub const BG_PANEL_ALT: Color = (0x11, 0x1F, 0x23);

pub const BG_ELEVATED: Color = (0x16, 0x2D, 0x32);

pub const CYAN_MUTED: Color = (0x1D, 0x40, 0x48);

pub const CYAN_MID: Color = (0x25, 0x54, 0x5D);

pub const CYAN_BASE: Color = (0x30, 0x68, 0x74);

pub const CYAN_BRIGHT: Color = (0x4F, 0x9C, 0xAB);

pub const CYAN_LIGHT: Color = (0x68, 0x97, 0xA0);

pub const CYAN_GLOW: Color = (0xB1, 0xEF, 0xF2);

pub const CYAN_HIGHLIGHT: Color = (0xC8, 0xF6, 0xF6);

pub const ORANGE_DIM: Color = (0x50, 0x3D, 0x26);

pub const ORANGE_BASE: Color = (0xCE, 0x7C, 0x34);

pub const ORANGE_GLOW: Color = (0xFD, 0xCE, 0x95);

/// Brighter than [`GREY_LIGHT`], whatever the names say.
pub const GREY_MID: Color = (0x56, 0x5B, 0x5A);

pub const GREY_LIGHT: Color = (0x38, 0x3A, 0x38);

pub const WHITE_DIM: Color = (0xE7, 0xE9, 0xE9);

pub const WHITE: Color = (0xF2, 0xF3, 0xF3);

pub const WHITE_BRIGHT: Color = (0xFD, 0xFD, 0xFD);

/// The app's ground: what shows between the panels.
pub const BG: Color = BG_PRIMARY;

/// The dark well the spectrum and the waterfall sit in.
pub const BG_WELL: Color = BG_VOID;

/// A sidebar panel, one step above [`BG`].
pub const BG_CARD: Color = BG_PANEL_ALT;

/// Under the focused row: lifts it off its card.
pub const BG_SELECTED: Color = BG_ELEVATED;

/// The quietest thing on screen that is still a thing.
pub const BORDER: Color = CYAN_MUTED;

/// Panel titles, sitting on the border and belonging to it.
pub const TITLE: Color = CYAN_LIGHT;

/// Section headers inside a list.
pub const SECTION: Color = CYAN_BRIGHT;

/// The dim left column of a readout.
pub const LABEL: Color = CYAN_BASE;

/// The number you actually came to read.
pub const TEXT: Color = WHITE_DIM;

/// Secondary text: key hints, log timestamps.
pub const TEXT_DIM: Color = GREY_MID;

/// Set, but doing nothing.
pub const INERT: Color = GREY_MID;

/// A focused pane's border, and the label of the focused row.
pub const FOCUS: Color = ORANGE_BASE;

/// The cursor marker and the focused row's value.
pub const FOCUS_BRIGHT: Color = ORANGE_GLOW;

/// A transient status message takes the whole bar, inverted.
pub const STATUS_FG: Color = BG_VOID;

pub const STATUS_BG: Color = ORANGE_BASE;

/// The key glyph of a hint. Cyan: the hint row is always on screen, and an
/// accent that is always visible is no accent.
pub const HINT_KEY: Color = CYAN_BRIGHT;

/// What the key does.
pub const HINT_TEXT: Color = TEXT_DIM;

pub const LOG_TIME: Color = TEXT_DIM;

pub const LOG_INFO: Color = TEXT;

pub const LOG_WARN: Color = ORANGE_BASE;

pub const LOG_ERROR_FG: Color = BG_VOID;

pub const LOG_ERROR_BG: Color = ORANGE_BASE;

/// A cell the waterfall has no data for: empty well.
pub const WATERFALL_EMPTY: Color = BG_WELL;

/// The line at the centre of the span.
pub const CURSOR_CENTER: Color = CYAN_GLOW;

/// The line at the channel being demodulated.
pub const CURSOR_TUNED: Color = ORANGE_BASE;

/// The stops of the gradient from the floor to the ceiling of the colour range.
/// All cyan, lighter from stop to stop, in steps that look alike. The fifth is
/// halfway between [`CYAN_BRIGHT`] and [`CYAN_GLOW`]: without it one step of the
/// range would be invisible.
pub const SPECTRUM_STOPS: [[u8; 3]; 6] = [
    [0x01, 0x01, 0x01],
    [0x1D, 0x40, 0x48],
    [0x30, 0x68, 0x74],
    [0x4F, 0x9C, 0xAB],
    [0x80, 0xC5, 0xCE],
    [0xC8, 0xF6, 0xF6],
];

/// Border style for a pane, by whether it has focus.
pub fn pane_border(focused: bool) -> (s: Style)
    ensures
        s == Style::ink(if focused {
            FOCUS
        } else {
            BORDER
        }),
{
    Style::new().fg(
        if focused {
            FOCUS
        } else {
            BORDER
        },
    )
}

/// Panel title style.
pub fn pane_title() -> (s: Style)
    ensures
        s == Style::ink(TITLE),
{
    Style::new().fg(TITLE)
}

/// A sidebar panel's ground.
pub fn pane_card() -> (s: Style)
    ensures
        s == Style::ground(BG_CARD),
{
    Style::new().bg(BG_CARD)
}

/// The frame of a sidebar panel.
pub open spec fn card(focused: bool) -> Chrome {
    Chrome {
        style: Style::ground(BG_CARD),
        title_style: Style::ink(TITLE),
        border_style: Style::ink(
            if focused {
                FOCUS
            } else {
                BORDER
            },
        ),
    }
}

/// The frame of a sidebar panel.
pub fn pane_chrome(focused: bool) -> (c: Chrome)
    ensures
        c == card(focused),
{
    Chrome {
        style: pane_card(),
        title_style: pane_title(),
        border_style: pane_border(focused),
    }
}

/// Orange never appears in the gradient: no stop is warmer than it is cold, so
/// no blend of two neighbouring stops is either.
pub proof fn gradient_is_never_warm(i: int)
    requires
        0 <= i < SPECTRUM_STOPS@.len(),
    ensures
        SPECTRUM_STOPS@[i]@[0] <= SPECTRUM_STOPS@[i]@[1],
        SPECTRUM_STOPS@[i]@[0] <= SPECTRUM_STOPS@[i]@[2],
{
}

/// The gradient grows lighter from stop to stop in every channel.
pub proof fn gradient_grows_lighter(i: int, j: int, k: int)
    requires
        0 <= i < j < SPECTRUM_STOPS@.len(),
        0 <= k < 3,
    ensures
        SPECTRUM_STOPS@[i]@[k] < SPECTRUM_STOPS@[j]@[k],
{
}

} // verus!
