//! Colours by name and the colours of the viewer.

use crate::style::RatColor;
use vstd::prelude::*;

verus! {

/// A colour as a theme names it.
#[derive(Debug, Clone, Copy, PartialEq, Eq, Structural)]
pub enum Color {
    Rgb(u8, u8, u8),
    Ansi(u8),
    Ansi256(u8),
    Reset,
    Bg,
    Fg,
    Black,
    Red,
    Green,
    Yellow,
    Blue,
    Magenta,
    Cyan,
    Gray,
    DarkGray,
    LightRed,
    LightGreen,
    LightYellow,
    LightBlue,
    LightMagenta,
    LightCyan,
    White,
}

/// The terminal colour for a colour of a theme.
pub open spec fn terminal_color(c: Color) -> RatColor {
    match c {
        Color::Rgb(r, g, b) => RatColor::Rgb(r, g, b),
        Color::Ansi(v) => RatColor::Indexed(v),
        Color::Ansi256(v) => RatColor::Indexed(v),
        Color::Reset => RatColor::Reset,
        Color::Bg => RatColor::Reset,
        Color::Fg => RatColor::White,
        Color::Black => RatColor::Black,
        Color::Red => RatColor::Red,
        Color::Green => RatColor::Green,
        Color::Yellow => RatColor::Yellow,
        Color::Blue => RatColor::Blue,
        Color::Magenta => RatColor::Magenta,
        Color::Cyan => RatColor::Cyan,
        Color::Gray => RatColor::Gray,
        Color::DarkGray => RatColor::DarkGray,
        Color::LightRed => RatColor::LightRed,
        Color::LightGreen => RatColor::LightGreen,
        Color::LightYellow => RatColor::LightYellow,
        Color::LightBlue => RatColor::LightBlue,
        Color::LightMagenta => RatColor::LightMagenta,
        Color::LightCyan => RatColor::LightCyan,
        Color::White => RatColor::White,
    }
}

impl Color {
    pub fn to_ratatui(&self) -> (r: RatColor)
        ensures
            r == terminal_color(*self),
    {
        match *self {
            Color::Rgb(r, g, b) => RatColor::Rgb(r, g, b),
            Color::Ansi(v) | Color::Ansi256(v) => RatColor::Indexed(v),
            Color::Reset => RatColor::Reset,
            Color::Bg => RatColor::Reset,
            Color::Fg => RatColor::White,
            Color::Black => RatColor::Black,
            Color::Red => RatColor::Red,
            Color::Green => RatColor::Green,
            Color::Yellow => RatColor::Yellow,
            Color::Blue => RatColor::Blue,
            Color::Magenta => RatColor::Magenta,
            Color::Cyan => RatColor::Cyan,
            Color::Gray => RatColor::Gray,
            Color::DarkGray => RatColor::DarkGray,
            Color::LightRed => RatColor::LightRed,
            Color::LightGreen => RatColor::LightGreen,
            Color::LightYellow => RatColor::LightYellow,
            Color::LightBlue => RatColor::LightBlue,
            Color::LightMagenta => RatColor::LightMagenta,
            Color::LightCyan => RatColor::LightCyan,
            Color::White => RatColor::White,
        }
    }
}

/// The colours of the viewer.
#[derive(Debug, Clone, Copy, PartialEq, Eq, Structural)]
pub struct UiTheme {
    pub bg: Color,
    pub fg: Color,
    pub dim: Color,
    pub border: Color,
    pub status_active: Color,
    pub status_error: Color,
    pub status_warn: Color,
    pub highlight: Color,
    pub selection_bg: Color,
    pub selection_fg: Color,
}

/// The colours of a viewer that is told nothing else.
pub open spec fn default_theme() -> UiTheme {
    UiTheme {
        bg: Color::Reset,
        fg: Color::White,
        dim: Color::DarkGray,
        border: Color::Cyan,
        status_active: Color::Green,
        status_error: Color::Red,
        status_warn: Color::Yellow,
        highlight: Color::Blue,
        selection_bg: Color::Rgb(40, 75, 125),
        selection_fg: Color::Rgb(240, 240, 255),
    }
}

impl Default for UiTheme {
    fn default() -> (r: UiTheme)
        ensures
            r == default_theme(),
    {
        UiTheme {
            bg: Color::Reset,
            fg: Color::White,
            dim: Color::DarkGray,
            border: Color::Cyan,
            status_active: Color::Green,
            status_error: Color::Red,
            status_warn: Color::Yellow,
            highlight: Color::Blue,
            selection_bg: Color::Rgb(40, 75, 125),
            selection_fg: Color::Rgb(240, 240, 255),
        }
    }
}

} // verus!
