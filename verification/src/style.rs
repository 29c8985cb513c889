//! Terminal styles as plain values: a foreground, a background, and the
//! emphasis that a style turns on and off.

use vstd::prelude::*;

verus! {

/// A terminal colour.
#[derive(Debug, Clone, Copy, PartialEq, Eq, Structural)]
pub enum RatColor {
    Reset,
    Black,
    Red,
    Green,
    Yellow,
    Blue,
    Magenta,
    Cyan,
    Gray,
    DarkGray,
    LightRed,
    LightGreen,
    LightYellow,
    LightBlue,
    LightMagenta,
    LightCyan,
    White,
    Rgb(u8, u8, u8),
    Indexed(u8),
}

/// A set of emphases.
#[derive(Debug, Clone, Copy, PartialEq, Eq, Structural)]
pub struct Emphasis {
    pub bold: bool,
    pub dim: bool,
    pub italic: bool,
    pub underlined: bool,
    pub reversed: bool,
}

impl Emphasis {
    #[verifier::allow_in_spec]
    pub fn none() -> (r: Emphasis)
        returns
            (Emphasis { bold: false, dim: false, italic: false, underlined: false, reversed: false }),
    {
        Emphasis { bold: false, dim: false, italic: false, underlined: false, reversed: false }
    }

    #[verifier::allow_in_spec]
    pub fn bold() -> (r: Emphasis)
        returns
            (Emphasis { bold: true, ..Emphasis::none() }),
    {
        Emphasis { bold: true, ..Emphasis::none() }
    }

    #[verifier::allow_in_spec]
    pub fn dim() -> (r: Emphasis)
        returns
            (Emphasis { dim: true, ..Emphasis::none() }),
    {
        Emphasis { dim: true, ..Emphasis::none() }
    }

    #[verifier::allow_in_spec]
    pub fn italic() -> (r: Emphasis)
        returns
            (Emphasis { italic: true, ..Emphasis::none() }),
    {
        Emphasis { italic: true, ..Emphasis::none() }
    }

    #[verifier::allow_in_spec]
    pub fn underlined() -> (r: Emphasis)
        returns
            (Emphasis { underlined: true, ..Emphasis::none() }),
    {
        Emphasis { underlined: true, ..Emphasis::none() }
    }

    #[verifier::allow_in_spec]
    pub fn reversed() -> (r: Emphasis)
        returns
            (Emphasis { reversed: true, ..Emphasis::none() }),
    {
        Emphasis { reversed: true, ..Emphasis::none() }
    }

    /// What is in either set.
    #[verifier::allow_in_spec]
    pub fn union(self, other: Emphasis) -> (r: Emphasis)
        returns
            (Emphasis {
                bold: self.bold || other.bold,
                dim: self.dim || other.dim,
                italic: self.italic || other.italic,
                underlined: self.underlined || other.underlined,
                reversed: self.reversed || other.reversed,
            }),
    {
        Emphasis {
            bold: self.bold || other.bold,
            dim: self.dim || other.dim,
            italic: self.italic || other.italic,
            underlined: self.underlined || other.underlined,
            reversed: self.reversed || other.reversed,
        }
    }

    /// What is in this set and not in the other.
    #[verifier::allow_in_spec]
    pub fn difference(self, other: Emphasis) -> (r: Emphasis)
        returns
            (Emphasis {
                bold: self.bold && !other.bold,
                dim: self.dim && !other.dim,
                italic: self.italic && !other.italic,
                underlined: self.underlined && !other.underlined,
                reversed: self.reversed && !other.reversed,
            }),
    {
        Emphasis {
            bold: self.bold && !other.bold,
            dim: self.dim && !other.dim,
            italic: self.italic && !other.italic,
            underlined: self.underlined && !other.underlined,
            reversed: self.reversed && !other.reversed,
        }
    }
}

/// How a piece of text is drawn: colours that are set, emphasis that is turned
/// on and emphasis that is turned off.
#[derive(Debug, Clone, Copy, PartialEq, Eq, Structural)]
pub struct Style {
    pub fg: Option<RatColor>,
    pub bg: Option<RatColor>,
    pub on: Emphasis,
    pub off: Emphasis,
}

impl Style {
    /// The style that changes nothing.
    #[verifier::allow_in_spec]
    pub fn plain() -> (r: Style)
        returns
            (Style { fg: None, bg: None, on: Emphasis::none(), off: Emphasis::none() }),
    {
        Style { fg: None, bg: None, on: Emphasis::none(), off: Emphasis::none() }
    }

    #[verifier::allow_in_spec]
    pub fn fg(self, c: RatColor) -> (r: Style)
        returns
            (Style { fg: Some(c), ..self }),
    {
        Style { fg: Some(c), ..self }
    }

    #[verifier::allow_in_spec]
    pub fn bg(self, c: RatColor) -> (r: Style)
        returns
            (Style { bg: Some(c), ..self }),
    {
        Style { bg: Some(c), ..self }
    }

    /// Turns emphasis on.
    #[verifier::allow_in_spec]
    pub fn with(self, e: Emphasis) -> (r: Style)
        returns
            (Style { on: self.on.union(e), off: self.off.difference(e), ..self }),
    {
        Style { on: self.on.union(e), off: self.off.difference(e), ..self }
    }

    /// Turns emphasis off.
    #[verifier::allow_in_spec]
    pub fn without(self, e: Emphasis) -> (r: Style)
        returns
            (Style { on: self.on.difference(e), off: self.off.union(e), ..self }),
    {
        Style { on: self.on.difference(e), off: self.off.union(e), ..self }
    }

    /// This style with what the other one sets laid over it.
    #[verifier::allow_in_spec]
    pub fn patch(self, other: Style) -> (r: Style)
        returns
            (Style {
                fg: if other.fg is Some {
                    other.fg
                } else {
                    self.fg
                },
                bg: if other.bg is Some {
                    other.bg
                } else {
                    self.bg
                },
                on: self.on.difference(other.off).union(other.on),
                off: self.off.difference(other.on).union(other.off),
            }),
    {
        Style {
            fg: if other.fg.is_some() {
                other.fg
            } else {
                self.fg
            },
            bg: if other.bg.is_some() {
                other.bg
            } else {
                self.bg
            },
            on: self.on.difference(other.off).union(other.on),
            off: self.off.difference(other.on).union(other.off),
        }
    }
}

/// A style that is laid over another keeps what the other one leaves open: colours that
/// it sets win, emphasis that it turns on is on and what it turns off is off.
pub proof fn law_style_laid_over(a: Style, b: Style)
    ensures
        ({
            let p = a.patch(b);
            &&& b.fg is Some ==> p.fg == b.fg
            &&& b.fg is None ==> p.fg == a.fg
            &&& b.bg is Some ==> p.bg == b.bg
            &&& b.bg is None ==> p.bg == a.bg
            &&& b.on.bold ==> p.on.bold
            &&& b.off.bold && !b.on.bold ==> !p.on.bold && p.off.bold
            &&& !b.on.bold && !b.off.bold ==> p.on.bold == a.on.bold && p.off.bold == a.off.bold
            &&& b.on.dim ==> p.on.dim
            &&& b.off.dim && !b.on.dim ==> !p.on.dim
            &&& !b.on.dim && !b.off.dim ==> p.on.dim == a.on.dim
            &&& !b.on.reversed && !b.off.reversed ==> p.on.reversed == a.on.reversed
            &&& !b.on.italic && !b.off.italic ==> p.on.italic == a.on.italic
            &&& !b.on.underlined && !b.off.underlined ==> p.on.underlined == a.on.underlined
        }),
        a.patch(Style::plain()) == a,
        Style::plain().patch(b).fg == b.fg && Style::plain().patch(b).bg == b.bg && Style::plain().patch(b).on == b.on,
{
}

/// What is turned on is on and not off, what is turned off is off and not on, and the
/// colours stay.
pub proof fn law_emphasis_turns(a: Style, e: Emphasis)
    ensures
        a.with(e).without(e).on == a.on.difference(e),
        e.bold ==> a.with(e).on.bold && !a.with(e).off.bold && !a.without(e).on.bold && a.without(e).off.bold,
        e.dim ==> a.with(e).on.dim && !a.with(e).off.dim && !a.without(e).on.dim,
        e.italic ==> a.with(e).on.italic && !a.without(e).on.italic,
        e.underlined ==> a.with(e).on.underlined && !a.without(e).on.underlined,
        e.reversed ==> a.with(e).on.reversed && !a.without(e).on.reversed,
        !e.bold ==> a.with(e).on.bold == a.on.bold && a.without(e).on.bold == a.on.bold,
        !e.reversed ==> a.with(e).on.reversed == a.on.reversed,
        a.with(e).fg == a.fg && a.with(e).bg == a.bg && a.without(e).fg == a.fg && a.without(e).bg == a.bg,
{
}

} // verus!
