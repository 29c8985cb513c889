//! Styled text.

use crate::ansi::{self, Piece};
use crate::style::Style;
use crate::text::string_of;
use vstd::prelude::*;

verus! {

/// A piece of text in one style.
#[derive(Debug)]
pub struct Span {
    pub text: String,
    pub style: Style,
}

impl View for Span {
    type V = Piece;

    open spec fn view(&self) -> Piece {
        Piece { text: self.text@, style: self.style }
    }
}

/// What a line of styled text holds.
pub open spec fn spans_view(v: Seq<Span>) -> Seq<Piece> {
    v.map_values(|s: Span| s@)
}

/// What lines of styled text hold.
pub open spec fn lines_view(v: Seq<Vec<Span>>) -> Seq<Seq<Piece>> {
    v.map_values(|l: Vec<Span>| spans_view(l@))
}

/// A text in a style.
pub open spec fn styled(text: Seq<char>, style: Style) -> Piece {
    Piece { text, style }
}

/// A text in a style, where there is any.
pub open spec fn styled_if_any(text: Seq<char>, style: Style) -> Seq<Piece> {
    if text.len() == 0 {
        seq![]
    } else {
        seq![styled(text, style)]
    }
}

/// Blanks.
pub open spec fn blank(n: int) -> Seq<char> {
    Seq::new(n as nat, |i: int| ' ')
}

/// A line filled up with blanks to `width` characters.
pub open spec fn padded(line: Seq<Piece>, width: int, style: Style) -> Seq<Piece> {
    if ansi::joined(line).len() < width {
        line.push(styled(blank(width - ansi::joined(line).len()), style))
    } else {
        line
    }
}

/// Adds a text in a style to a line.
pub fn put(line: &mut Vec<Span>, text: String, style: Style)
    ensures
        spans_view(final(line)@) == spans_view(old(line)@).push(styled(text@, style)),
{
    let ghost before = line@;
    let s = Span { text, style };
    assert(s@ == styled(text@, style));
    line.push(s);
    assert(spans_view(line@) =~= spans_view(before).push(s@));
}

/// Adds a text in a style to a line.
pub fn put_str(line: &mut Vec<Span>, text: &str, style: Style)
    ensures
        spans_view(final(line)@) == spans_view(old(line)@).push(styled(text@, style)),
{
    put(line, text.to_owned(), style);
}

/// Adds characters in a style to a line, where there are any.
pub fn put_if_any(line: &mut Vec<Span>, text: &[char], style: Style)
    ensures
        spans_view(final(line)@) == spans_view(old(line)@) + styled_if_any(text@, style),
{
    if text.len() > 0 {
        put(line, string_of(text), style);
    } else {
        assert(spans_view(line@) =~= spans_view(line@) + styled_if_any(text@, style));
    }
}

/// A text of blanks.
pub fn blanks(n: usize) -> (r: String)
    ensures
        r@ == blank(n as int),
{
    let mut v: Vec<char> = Vec::new();
    let mut i: usize = 0;
    while i < n
        invariant
            i <= n,
            v@ == blank(i as int),
        decreases n - i,
    {
        v.push(' ');
        i += 1;
        assert(v@ =~= blank(i as int));
    }
    string_of(v.as_slice())
}

/// The number of characters in a line, as far as a machine number goes.
fn line_len(line: &Vec<Span>) -> (r: usize)
    ensures
        ansi::joined(spans_view(line@)).len() <= usize::MAX ==> r == ansi::joined(spans_view(line@)).len(),
        ansi::joined(spans_view(line@)).len() > usize::MAX ==> r == usize::MAX,
{
    let mut total: usize = 0;
    let mut i: usize = 0;
    let ghost p = spans_view(line@);
    while i < line.len()
        invariant
            i <= line@.len(),
            p == spans_view(line@),
            ansi::joined(p.take(i as int)).len() <= usize::MAX ==> total == ansi::joined(p.take(i as int)).len(),
            ansi::joined(p.take(i as int)).len() > usize::MAX ==> total == usize::MAX,
        decreases line@.len() - i,
    {
        proof {
            ansi::lemma_joined_push(p.take(i as int), p[i as int]);
            assert(p.take(i + 1) =~= p.take(i as int).push(p[i as int]));
            assert(p[i as int] == line@[i as int]@);
        }
        total = total.saturating_add(line[i].text.as_str().unicode_len());
        i += 1;
    }
    assert(p.take(i as int) =~= p);
    total
}

/// Fills a line up with blanks to `width` characters.
pub fn pad(line: &mut Vec<Span>, width: usize, style: Style)
    ensures
        spans_view(final(line)@) == padded(spans_view(old(line)@), width as int, style),
{
    let n: usize = line_len(line);
    if n < width {
        put(line, blanks(width - n), style);
    }
}

/// Adds a line.
pub fn put_line(lines: &mut Vec<Vec<Span>>, line: Vec<Span>)
    ensures
        lines_view(final(lines)@) == lines_view(old(lines)@).push(spans_view(line@)),
{
    let ghost before = lines@;
    lines.push(line);
    assert(lines_view(lines@) =~= lines_view(before).push(spans_view(line@)));
}

} // verus!
