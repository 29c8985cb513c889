//! The colours that a terminal can show.

use crate::style::{Emphasis, RatColor, Style};
use vstd::prelude::*;

verus! {

/// The colours that a terminal says it uses.
#[derive(Debug, Clone, Copy)]
pub struct TerminalPalette {
    pub bg: Option<(u8, u8, u8)>,
}

/// What a terminal makes of colours.
#[derive(Debug, Clone, Copy)]
pub enum TerminalColorMode {
    /// It shows any colour.
    TrueColor(TerminalPalette),
    /// It shows a fixed set of colours.
    Indexed,
}

impl TerminalColorMode {
    /// The background, where the terminal shows any colour and tells it.
    pub open spec fn bg(self) -> Option<(u8, u8, u8)> {
        match self {
            TerminalColorMode::TrueColor(p) => p.bg,
            TerminalColorMode::Indexed => None,
        }
    }

    pub fn background(&self) -> (r: Option<(u8, u8, u8)>)
        ensures
            r == self.bg(),
    {
        match self {
            TerminalColorMode::TrueColor(p) => p.bg,
            TerminalColorMode::Indexed => None,
        }
    }
}

/// A channel made lighter or darker, as far as it goes.
pub open spec fn shifted(v: u8, by: u8, lighter: bool) -> u8 {
    if lighter {
        if v + by > 255 {
            255
        } else {
            (v + by) as u8
        }
    } else if v < by {
        0
    } else {
        (v - by) as u8
    }
}

fn shift(v: u8, by: u8, lighter: bool) -> (r: u8)
    ensures
        r == shifted(v, by, lighter),
{
    if lighter {
        v.saturating_add(by)
    } else {
        v.saturating_sub(by)
    }
}

/// The style of selected text: a background set off from the terminal's, or the
/// colours swapped where that is not known.
pub open spec fn selection_style(bg: Option<(u8, u8, u8)>, is_dark: bool) -> Style {
    match bg {
        Some((r, g, b)) => Style::plain().bg(
            RatColor::Rgb(shifted(r, 35, is_dark), shifted(g, 35, is_dark), shifted(b, 35, is_dark)),
        ).fg(
            if is_dark {
                RatColor::Rgb(255, 255, 255)
            } else {
                RatColor::Rgb(0, 0, 0)
            },
        ).with(Emphasis::bold()),
        None => Style::plain().with(Emphasis::reversed().union(Emphasis::bold())),
    }
}

/// The style of the line that the cursor is on. On a light background all
/// channels follow the red one.
pub open spec fn active_line_style(bg: Option<(u8, u8, u8)>, is_dark: bool) -> Style {
    match bg {
        Some((r, g, b)) => Style::plain().bg(
            if is_dark {
                RatColor::Rgb(shifted(r, 20, true), shifted(g, 20, true), shifted(b, 20, true))
            } else {
                RatColor::Rgb(shifted(r, 20, false), shifted(r, 20, false), shifted(r, 20, false))
            },
        ),
        None => Style::plain().bg(RatColor::Indexed(236)),
    }
}

/// The style of selected text; `is_dark` is whether the background is dark.
pub fn compute_neutral_selection_style(color_mode: &TerminalColorMode, is_dark: bool) -> (r: Style)
    ensures
        r == selection_style(color_mode.bg(), is_dark),
{
    match color_mode.background() {
        Some((r, g, b)) => {
            let fg = if is_dark {
                RatColor::Rgb(255, 255, 255)
            } else {
                RatColor::Rgb(0, 0, 0)
            };
            Style::plain().bg(RatColor::Rgb(shift(r, 35, is_dark), shift(g, 35, is_dark), shift(b, 35, is_dark))).fg(
                fg,
            ).with(Emphasis::bold())
        },
        None => Style::plain().with(Emphasis::reversed().union(Emphasis::bold())),
    }
}

/// The style of the line that the cursor is on; `is_dark` is whether the background is dark.
pub fn compute_neutral_active_line_style(color_mode: &TerminalColorMode, is_dark: bool) -> (r: Style)
    ensures
        r == active_line_style(color_mode.bg(), is_dark),
{
    match color_mode.background() {
        Some((r, g, b)) => {
            let bg = if is_dark {
                RatColor::Rgb(shift(r, 20, true), shift(g, 20, true), shift(b, 20, true))
            } else {
                RatColor::Rgb(shift(r, 20, false), shift(r, 20, false), shift(r, 20, false))
            };
            Style::plain().bg(bg)
        },
        None => Style::plain().bg(RatColor::Indexed(236)),
    }
}

/// A channel is shifted by so much, lighter or darker, and stops at the end of its range.
pub proof fn law_channel_shifts(v: u8, by: u8)
    ensures
        v + by <= 255 ==> shifted(v, by, true) - v == by,
        v + by > 255 ==> shifted(v, by, true) == 255,
        by <= v ==> v - shifted(v, by, false) == by,
        by > v ==> shifted(v, by, false) == 0,
{
}

/// Selected text stands out from its background more than the line of the cursor does:
/// lighter on a dark background and darker on a light one, with the text at the far end.
pub proof fn law_selection_stands_out(r: u8, g: u8, b: u8, is_dark: bool)
    requires
        35 <= r <= 220 && 35 <= g <= 220 && 35 <= b <= 220,
    ensures
        ({
            let sel = selection_style(Some((r, g, b)), is_dark);
            let line = active_line_style(Some((r, g, b)), is_dark);
            &&& is_dark ==> sel.bg == Some(RatColor::Rgb((r + 35) as u8, (g + 35) as u8, (b + 35) as u8))
            &&& is_dark ==> line.bg == Some(RatColor::Rgb((r + 20) as u8, (g + 20) as u8, (b + 20) as u8))
            &&& !is_dark ==> line.bg == Some(RatColor::Rgb((r - 20) as u8, (r - 20) as u8, (r - 20) as u8))
            &&& !is_dark ==> sel.bg == Some(RatColor::Rgb((r - 35) as u8, (g - 35) as u8, (b - 35) as u8))
            &&& is_dark ==> sel.fg == Some(RatColor::Rgb(255, 255, 255))
            &&& !is_dark ==> sel.fg == Some(RatColor::Rgb(0, 0, 0))
            &&& line.fg is None
        }),
{
}

} // verus!
