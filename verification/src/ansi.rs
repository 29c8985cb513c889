//! Escape sequences: the text of a log message without them, cut into
//! segments of one style each.

use crate::numbers::{self, parse_unsigned};
use crate::style::{Emphasis, RatColor, Style};
use crate::text::{self, chars_of, pieces, string_of};
use vstd::prelude::*;
use vstd::slice::slice_subrange;

verus! {

/// A stretch of text in one style.
#[derive(Debug, Clone, PartialEq, Eq)]
pub struct AnsiSegment {
    pub text: String,
    pub style: Style,
}

/// What a segment holds.
pub struct Piece {
    pub text: Seq<char>,
    pub style: Style,
}

impl View for AnsiSegment {
    type V = Piece;

    open spec fn view(&self) -> Piece {
        Piece { text: self.text@, style: self.style }
    }
}

/// What a list of segments holds.
pub open spec fn pieces_of(v: Seq<AnsiSegment>) -> Seq<Piece> {
    v.map_values(|x: AnsiSegment| x@)
}

/// The texts of the pieces, one after the other.
pub open spec fn joined(p: Seq<Piece>) -> Seq<char>
    decreases p.len(),
{
    if p.len() == 0 {
        seq![]
    } else {
        joined(p.drop_last()) + p.last().text
    }
}

// ---------------------------------------------------------------------------
// Colour and emphasis codes
// ---------------------------------------------------------------------------

/// The eight colours, and the default one at nine.
pub open spec fn standard_color(k: int) -> Option<RatColor> {
    if k == 0 {
        Some(RatColor::Black)
    } else if k == 1 {
        Some(RatColor::Red)
    } else if k == 2 {
        Some(RatColor::Green)
    } else if k == 3 {
        Some(RatColor::Yellow)
    } else if k == 4 {
        Some(RatColor::Blue)
    } else if k == 5 {
        Some(RatColor::Magenta)
    } else if k == 6 {
        Some(RatColor::Cyan)
    } else if k == 7 {
        Some(RatColor::Gray)
    } else if k == 9 {
        Some(RatColor::Reset)
    } else {
        None
    }
}

/// The eight bright colours.
pub open spec fn bright_color(k: int) -> Option<RatColor> {
    if k == 0 {
        Some(RatColor::DarkGray)
    } else if k == 1 {
        Some(RatColor::LightRed)
    } else if k == 2 {
        Some(RatColor::LightGreen)
    } else if k == 3 {
        Some(RatColor::LightYellow)
    } else if k == 4 {
        Some(RatColor::LightBlue)
    } else if k == 5 {
        Some(RatColor::LightMagenta)
    } else if k == 6 {
        Some(RatColor::LightCyan)
    } else if k == 7 {
        Some(RatColor::White)
    } else {
        None
    }
}

fn pick_standard(k: u32) -> (r: Option<RatColor>)
    ensures
        r == standard_color(k as int),
{
    match k {
        0 => Some(RatColor::Black),
        1 => Some(RatColor::Red),
        2 => Some(RatColor::Green),
        3 => Some(RatColor::Yellow),
        4 => Some(RatColor::Blue),
        5 => Some(RatColor::Magenta),
        6 => Some(RatColor::Cyan),
        7 => Some(RatColor::Gray),
        9 => Some(RatColor::Reset),
        _ => None,
    }
}

fn pick_bright(k: u32) -> (r: Option<RatColor>)
    ensures
        r == bright_color(k as int),
{
    match k {
        0 => Some(RatColor::DarkGray),
        1 => Some(RatColor::LightRed),
        2 => Some(RatColor::LightGreen),
        3 => Some(RatColor::LightYellow),
        4 => Some(RatColor::LightBlue),
        5 => Some(RatColor::LightMagenta),
        6 => Some(RatColor::LightCyan),
        7 => Some(RatColor::White),
        _ => None,
    }
}

/// The style after one code that stands for itself; codes without a meaning change nothing.
pub open spec fn after_code(style: Style, code: int) -> Style {
    if code == 0 {
        Style::plain()
    } else if code == 1 {
        style.with(Emphasis::bold())
    } else if code == 2 {
        style.with(Emphasis::dim())
    } else if code == 3 {
        style.with(Emphasis::italic())
    } else if code == 4 {
        style.with(Emphasis::underlined())
    } else if code == 7 {
        style.with(Emphasis::reversed())
    } else if code == 22 {
        style.without(Emphasis::bold().union(Emphasis::dim()))
    } else if code == 23 {
        style.without(Emphasis::italic())
    } else if code == 24 {
        style.without(Emphasis::underlined())
    } else if code == 27 {
        style.without(Emphasis::reversed())
    } else if 30 <= code <= 39 && standard_color(code - 30) is Some {
        style.fg(standard_color(code - 30)->0)
    } else if 90 <= code <= 97 {
        style.fg(bright_color(code - 90)->0)
    } else if 40 <= code <= 49 && standard_color(code - 40) is Some {
        style.bg(standard_color(code - 40)->0)
    } else {
        style
    }
}

fn apply_code(style: Style, code: u32) -> (r: Style)
    ensures
        r == after_code(style, code as int),
{
    if code == 0 {
        Style::plain()
    } else if code == 1 {
        style.with(Emphasis::bold())
    } else if code == 2 {
        style.with(Emphasis::dim())
    } else if code == 3 {
        style.with(Emphasis::italic())
    } else if code == 4 {
        style.with(Emphasis::underlined())
    } else if code == 7 {
        style.with(Emphasis::reversed())
    } else if code == 22 {
        style.without(Emphasis::bold().union(Emphasis::dim()))
    } else if code == 23 {
        style.without(Emphasis::italic())
    } else if code == 24 {
        style.without(Emphasis::underlined())
    } else if code == 27 {
        style.without(Emphasis::reversed())
    } else if 30 <= code && code <= 39 {
        match pick_standard(code - 30) {
            Some(c) => style.fg(c),
            None => style,
        }
    } else if 90 <= code && code <= 97 {
        match pick_bright(code - 90) {
            Some(c) => style.fg(c),
            None => style,
        }
    } else if 40 <= code && code <= 49 {
        match pick_standard(code - 40) {
            Some(c) => style.bg(c),
            None => style,
        }
    } else {
        style
    }
}

/// The low byte of a code.
pub open spec fn low_byte(v: u32) -> u8 {
    (v % 256) as u8
}

/// The colour that an extended code at `i` names, and how many codes it takes up.
pub open spec fn extended_color(codes: Seq<u32>, i: int) -> Option<(RatColor, int)> {
    if i + 2 < codes.len() && codes[i + 1] == 5 {
        Some((RatColor::Indexed(low_byte(codes[i + 2])), 3))
    } else if i + 4 < codes.len() && codes[i + 1] == 2 {
        Some((RatColor::Rgb(low_byte(codes[i + 2]), low_byte(codes[i + 3]), low_byte(codes[i + 4])), 5))
    } else {
        None
    }
}

/// The style after the codes from `i` on.
pub open spec fn after_codes(style: Style, codes: Seq<u32>, i: int) -> Style
    decreases codes.len() - i,
{
    if !(0 <= i < codes.len()) {
        style
    } else if codes[i] == 38 || codes[i] == 48 {
        match extended_color(codes, i) {
            Some((color, used)) => {
                let next = if codes[i] == 38 {
                    style.fg(color)
                } else {
                    style.bg(color)
                };
                if used >= 1 && i + used <= codes.len() {
                    after_codes(next, codes, i + used)
                } else {
                    next
                }
            },
            None => after_codes(style, codes, i + 1),
        }
    } else {
        after_codes(after_code(style, codes[i] as int), codes, i + 1)
    }
}

/// The numbers among the parameters; what is no number of 32 bits is left out.
pub open spec fn code_numbers(parts: Seq<Seq<char>>) -> Seq<u32>
    decreases parts.len(),
{
    if parts.len() == 0 {
        seq![]
    } else {
        let rest = code_numbers(parts.drop_last());
        match numbers::read_unsigned(parts.last(), 10, u32::MAX as int) {
            Some(v) => rest.push(v as u32),
            None => rest,
        }
    }
}

/// The style after a whole parameter text.
pub open spec fn after_params(style: Style, params: Seq<char>) -> Style {
    if params.len() == 0 || params == seq!['0'] {
        Style::plain()
    } else {
        after_codes(style, code_numbers(text::split(params, ';')), 0)
    }
}

fn apply_sgr_params(style: Style, params: &[char]) -> (r: Style)
    ensures
        r == after_params(style, params@),
{
    if params.len() == 0 {
        return Style::plain();
    }
    if params.len() == 1 && params[0] == '0' {
        assert(params@ =~= seq!['0']);
        return Style::plain();
    }
    assert(params@ != seq!['0']);
    let parts = pieces(params, ';');
    let mut codes: Vec<u32> = Vec::new();
    let mut n: usize = 0;
    assert(text::views(parts@).take(0) =~= Seq::<Seq<char>>::empty());
    while n < parts.len()
        invariant
            n <= parts@.len(),
            codes@ == code_numbers(text::views(parts@).take(n as int)),
        decreases parts@.len() - n,
    {
        assert(text::views(parts@).take(n + 1).drop_last() =~= text::views(parts@).take(n as int));
        match parse_unsigned(parts[n], 10, 0xffff_ffff) {
            Some(v) => codes.push(v as u32),
            None => {},
        }
        n += 1;
    }
    assert(text::views(parts@).take(n as int) =~= text::views(parts@));

    let mut style: Style = style;
    let ghost first = style;
    let mut i: usize = 0;
    while i < codes.len()
        invariant
            i <= codes@.len(),
            after_codes(first, codes@, 0) == after_codes(style, codes@, i as int),
        decreases codes@.len() - i,
    {
        let code: u32 = codes[i];
        if code == 38 || code == 48 {
            let left: usize = codes.len() - i;
            if left > 2 && codes[i + 1] == 5 {
                let c = RatColor::Indexed((codes[i + 2] % 256) as u8);
                style = if code == 38 {
                    style.fg(c)
                } else {
                    style.bg(c)
                };
                i += 3;
            } else if left > 4 && codes[i + 1] == 2 {
                let c = RatColor::Rgb(
                    (codes[i + 2] % 256) as u8,
                    (codes[i + 3] % 256) as u8,
                    (codes[i + 4] % 256) as u8,
                );
                style = if code == 38 {
                    style.fg(c)
                } else {
                    style.bg(c)
                };
                i += 5;
            } else {
                i += 1;
            }
        } else {
            style = apply_code(style, code);
            i += 1;
        }
    }
    style
}

// ---------------------------------------------------------------------------
// Escape sequences
// ---------------------------------------------------------------------------

/// A character of an escape sequence's parameters.
pub open spec fn is_param(c: char) -> bool {
    ('0' <= c <= '9') || c == ';' || c == '?'
}

pub open spec fn params_end(s: Seq<char>, i: int) -> int
    decreases s.len() - i,
{
    if 0 <= i < s.len() && is_param(s[i]) {
        params_end(s, i + 1)
    } else {
        i
    }
}

/// Whether an escape sequence begins at `i`.
pub open spec fn escape_at(s: Seq<char>, i: int) -> bool {
    0 <= i && i + 1 < s.len() && s[i] == '\u{1b}' && s[i + 1] == '['
}

/// The position of the command character of the sequence that begins at `i`.
pub open spec fn command_at(s: Seq<char>, i: int) -> int {
    params_end(s, i + 2)
}

/// The piece that ends here, if there is any text in it.
pub open spec fn flushed(buf: Seq<char>, style: Style) -> Seq<Piece> {
    if buf.len() == 0 {
        seq![]
    } else {
        seq![Piece { text: buf, style }]
    }
}

/// The pieces of the text from `i` on, where `buf` was read in `style` before it.
///
/// A sequence that ends in a command character is dropped, and a command `m`
/// changes the style; one that the text breaks off stays in the text.
pub open spec fn pieces_from(s: Seq<char>, i: int, style: Style, buf: Seq<char>) -> Seq<Piece>
    decreases s.len() - i,
{
    if !(0 <= i < s.len()) {
        flushed(buf, style)
    } else if escape_at(s, i) {
        let end = command_at(s, i);
        if i < end < s.len() {
            let next = if s[end] == 'm' {
                after_params(style, s.subrange(i + 2, end))
            } else {
                style
            };
            flushed(buf, style) + pieces_from(s, end + 1, next, seq![])
        } else {
            flushed(buf, style) + pieces_from(s, i + 1, style, seq![s[i]])
        }
    } else {
        pieces_from(s, i + 1, style, buf.push(s[i]))
    }
}

/// The pieces of a message.
pub open spec fn ansi_pieces(s: Seq<char>) -> Seq<Piece> {
    pieces_from(s, 0, Style::plain(), seq![])
}

/// The text of a message without its escape sequences.
pub open spec fn ansi_text(s: Seq<char>) -> Seq<char> {
    joined(ansi_pieces(s))
}

/// Whether every escape sequence of the text from `i` on has an ASCII command character.
pub open spec fn commands_ascii(s: Seq<char>, i: int) -> bool
    decreases s.len() - i,
{
    if !(0 <= i < s.len()) {
        true
    } else if escape_at(s, i) && i < command_at(s, i) < s.len() {
        s[command_at(s, i)] <= '\u{7f}' && commands_ascii(s, command_at(s, i) + 1)
    } else {
        commands_ascii(s, i + 1)
    }
}

fn find_params_end(s: &[char], from: usize) -> (r: usize)
    requires
        from <= s@.len(),
    ensures
        r == params_end(s@, from as int),
        from <= r <= s@.len(),
{
    let mut i: usize = from;
    while i < s.len() && (('0' <= s[i] && s[i] <= '9') || s[i] == ';' || s[i] == '?')
        invariant
            from <= i <= s@.len(),
            params_end(s@, from as int) == params_end(s@, i as int),
        decreases s@.len() - i,
    {
        i += 1;
    }
    i
}

/// Whether `parse_ansi` takes this message.
pub fn ansi_readable(input: &str) -> (r: bool)
    ensures
        r == commands_ascii(input@, 0),
{
    let s = chars_of(input);
    let mut i: usize = 0;
    while i < s.len()
        invariant
            i <= s@.len(),
            s@ == input@,
            commands_ascii(input@, 0) == commands_ascii(s@, i as int),
        decreases s@.len() - i,
    {
        if s.len() - i > 1 && s[i] == '\u{1b}' && s[i + 1] == '[' {
            let end: usize = find_params_end(s.as_slice(), i + 2);
            if end < s.len() {
                if s[end] > '\u{7f}' {
                    return false;
                }
                i = end + 1;
            } else {
                i += 1;
            }
        } else {
            i += 1;
        }
    }
    true
}

pub proof fn lemma_joined_push(p: Seq<Piece>, x: Piece)
    ensures
        joined(p.push(x)) == joined(p) + x.text,
{
    assert(p.push(x).drop_last() =~= p);
}

/// Moves the text read so far into a segment of its own.
fn flush(clean: &mut Vec<char>, segments: &mut Vec<AnsiSegment>, buf: &mut Vec<char>, style: Style)
    requires
        old(clean)@ == joined(pieces_of(old(segments)@)),
    ensures
        pieces_of(final(segments)@) == pieces_of(old(segments)@) + flushed(old(buf)@, style),
        final(clean)@ == joined(pieces_of(final(segments)@)),
        final(buf)@.len() == 0,
{
    if buf.len() == 0 {
        assert(pieces_of(segments@) + flushed(buf@, style) =~= pieces_of(segments@));
        return;
    }
    let segment = AnsiSegment { text: string_of(buf.as_slice()), style };
    proof {
        lemma_joined_push(pieces_of(segments@), segment@);
    }
    segments.push(segment);
    assert(pieces_of(segments@) =~= pieces_of(old(segments)@).push(segment@));
    assert(pieces_of(segments@) =~= pieces_of(old(segments)@) + flushed(old(buf)@, style));
    clean.append(buf);
}

/// Cuts a message into its text and its styled segments.
pub fn parse_ansi(input: &str) -> (r: (String, Vec<AnsiSegment>))
    requires
        commands_ascii(input@, 0),
    ensures
        r.0@ == ansi_text(input@),
        pieces_of(r.1@) == ansi_pieces(input@),
{
    let s = chars_of(input);
    let mut clean: Vec<char> = Vec::new();
    let mut segments: Vec<AnsiSegment> = Vec::new();
    let mut style: Style = Style::plain();
    let mut buf: Vec<char> = Vec::new();
    let mut i: usize = 0;
    assert(pieces_of(segments@) + ansi_pieces(s@) =~= ansi_pieces(s@));
    assert(buf@ =~= seq![]);
    while i < s.len()
        invariant
            i <= s@.len(),
            clean@ == joined(pieces_of(segments@)),
            ansi_pieces(s@) == pieces_of(segments@) + pieces_from(s@, i as int, style, buf@),
        decreases s@.len() - i,
    {
        let ghost before = pieces_of(segments@);
        let ghost held = buf@;
        if s.len() - i > 1 && s[i] == '\u{1b}' && s[i + 1] == '[' {
            flush(&mut clean, &mut segments, &mut buf, style);
            let end: usize = find_params_end(s.as_slice(), i + 2);
            assert(buf@ =~= seq![]);
            if end < s.len() {
                let ghost tail = pieces_from(
                    s@,
                    end + 1,
                    if s@[end as int] == 'm' {
                        after_params(style, s@.subrange(i + 2, end as int))
                    } else {
                        style
                    },
                    seq![],
                );
                assert((before + flushed(held, style)) + tail =~= before + (flushed(held, style) + tail));
                if s[end] == 'm' {
                    style = apply_sgr_params(style, slice_subrange(s.as_slice(), i + 2, end));
                }
                i = end + 1;
            } else {
                let ghost tail = pieces_from(s@, i + 1, style, seq![s@[i as int]]);
                assert((before + flushed(held, style)) + tail =~= before + (flushed(held, style) + tail));
                buf.push(s[i]);
                assert(buf@ =~= seq![s@[i as int]]);
                i += 1;
            }
        } else {
            buf.push(s[i]);
            i += 1;
        }
    }
    flush(&mut clean, &mut segments, &mut buf, style);
    (string_of(clean.as_slice()), segments)
}

// ---------------------------------------------------------------------------
// What holds of messages
// ---------------------------------------------------------------------------

/// Whether a text holds no escape character.
pub open spec fn plain(s: Seq<char>) -> bool {
    forall|i: int| 0 <= i < s.len() ==> #[trigger] s[i] != '\u{1b}'
}

/// Characters that begin no sequence are read into the piece that is under way.
proof fn lemma_plain_run(s: Seq<char>, i: int, e: int, style: Style, buf: Seq<char>)
    requires
        0 <= i <= e <= s.len(),
        forall|k: int| i <= k < e ==> #[trigger] s[k] != '\u{1b}',
    ensures
        pieces_from(s, i, style, buf) == pieces_from(s, e, style, buf + s.subrange(i, e)),
    decreases e - i,
{
    if i < e {
        assert(s[i] != '\u{1b}');
        lemma_plain_run(s, i + 1, e, style, buf.push(s[i]));
        assert(buf.push(s[i]) + s.subrange(i + 1, e) =~= buf + s.subrange(i, e));
    } else {
        assert(buf + s.subrange(i, e) =~= buf);
    }
}

proof fn lemma_params(s: Seq<char>, i: int, e: int)
    requires
        0 <= i <= e < s.len(),
        forall|k: int| i <= k < e ==> is_param(#[trigger] s[k]),
        !is_param(s[e]),
    ensures
        params_end(s, i) == e,
    decreases e - i,
{
    if i < e {
        assert(is_param(s[i]));
        lemma_params(s, i + 1, e);
    }
}

proof fn lemma_joined_add(a: Seq<Piece>, b: Seq<Piece>)
    ensures
        joined(a + b) == joined(a) + joined(b),
    decreases b.len(),
{
    if b.len() == 0 {
        assert(a + b =~= a);
        assert(joined(a) + joined(b) =~= joined(a));
    } else {
        lemma_joined_add(a, b.drop_last());
        assert((a + b).drop_last() =~= a + b.drop_last());
        assert(joined(a + b) =~= joined(a) + joined(b));
    }
}

proof fn lemma_flushed(buf: Seq<char>, style: Style)
    ensures
        joined(flushed(buf, style)) == buf,
{
    reveal_with_fuel(joined, 2);
    if buf.len() > 0 {
        assert(flushed(buf, style).drop_last() =~= seq![]);
        assert(joined(flushed(buf, style)) =~= buf);
    } else {
        assert(joined(flushed(buf, style)) =~= buf);
    }
}

/// The text does not depend on the style, and begins with what was read.
proof fn lemma_text_of(s: Seq<char>, i: int, a: Style, b: Style, buf: Seq<char>)
    ensures
        joined(pieces_from(s, i, a, buf)) == buf + joined(pieces_from(s, i, b, seq![])),
    decreases s.len() - i,
{
    lemma_flushed(buf, a);
    lemma_flushed(seq![], b);
    let none = Seq::<char>::empty();
    if !(0 <= i < s.len()) {
        assert(buf + joined(flushed(none, b)) =~= buf);
    } else if escape_at(s, i) {
        let end = command_at(s, i);
        if i < end < s.len() {
            let x = if s[end] == 'm' {
                after_params(a, s.subrange(i + 2, end))
            } else {
                a
            };
            let y = if s[end] == 'm' {
                after_params(b, s.subrange(i + 2, end))
            } else {
                b
            };
            lemma_text_of(s, end + 1, x, y, none);
            lemma_joined_add(flushed(buf, a), pieces_from(s, end + 1, x, none));
            lemma_joined_add(flushed(none, b), pieces_from(s, end + 1, y, none));
            let t = joined(pieces_from(s, end + 1, y, none));
            assert(none + t =~= t);
        } else {
            lemma_text_of(s, i + 1, a, b, seq![s[i]]);
            lemma_text_of(s, i + 1, b, b, seq![s[i]]);
            lemma_joined_add(flushed(buf, a), pieces_from(s, i + 1, a, seq![s[i]]));
            lemma_joined_add(flushed(none, b), pieces_from(s, i + 1, b, seq![s[i]]));
            let t = joined(pieces_from(s, i + 1, b, seq![s[i]]));
            assert(none + t =~= t);
        }
    } else {
        lemma_text_of(s, i + 1, a, b, buf.push(s[i]));
        lemma_text_of(s, i + 1, b, b, none.push(s[i]));
        let t = joined(pieces_from(s, i + 1, b, none));
        assert(buf.push(s[i]) + t =~= buf + (none.push(s[i]) + t));
    }
}

/// What stands behind `pre` is read alike, whatever `pre` is.
proof fn lemma_behind(pre: Seq<char>, s: Seq<char>, i: int, style: Style, buf: Seq<char>)
    requires
        0 <= i <= s.len(),
    ensures
        pieces_from(pre + s, pre.len() + i, style, buf) == pieces_from(s, i, style, buf),
    decreases s.len() - i,
{
    let t = pre + s;
    let n = pre.len() as int;
    if i < s.len() {
        assert(t[n + i] == s[i]);
        if i + 1 < s.len() {
            assert(t[n + i + 1] == s[i + 1]);
        }
        if escape_at(s, i) {
            lemma_params_behind(pre, s, i + 2);
            let end = command_at(s, i);
            if i < end < s.len() {
                assert(t[n + end] == s[end]);
                assert(t.subrange(n + i + 2, n + end) =~= s.subrange(i + 2, end));
                let next = if s[end] == 'm' {
                    after_params(style, s.subrange(i + 2, end))
                } else {
                    style
                };
                lemma_behind(pre, s, end + 1, next, seq![]);
            } else {
                lemma_behind(pre, s, i + 1, style, seq![s[i]]);
            }
        } else {
            lemma_behind(pre, s, i + 1, style, buf.push(s[i]));
        }
    }
}

proof fn lemma_params_behind(pre: Seq<char>, s: Seq<char>, i: int)
    requires
        0 <= i <= s.len(),
    ensures
        params_end(pre + s, pre.len() + i) == pre.len() + params_end(s, i),
        i <= params_end(s, i) <= s.len(),
    decreases s.len() - i,
{
    if i < s.len() {
        assert((pre + s)[pre.len() + i] == s[i]);
        if is_param(s[i]) {
            lemma_params_behind(pre, s, i + 1);
        }
    }
}

/// An escape sequence: its parameters and its command.
pub open spec fn sequence(params: Seq<char>, c: char) -> Seq<char> {
    seq!['\u{1b}', '['] + params + seq![c]
}

/// A text without escape characters is shown as it is, in the plain style.
pub proof fn law_plain_text_stays(s: Seq<char>)
    requires
        plain(s),
    ensures
        ansi_text(s) == s,
        s.len() > 0 ==> ansi_pieces(s) == seq![Piece { text: s, style: Style::plain() }],
{
    let n = s.len() as int;
    lemma_plain_run(s, 0, n, Style::plain(), seq![]);
    assert(Seq::<char>::empty() + s.subrange(0, n) =~= s);
    lemma_flushed(s, Style::plain());
}

/// An escape sequence is left out of the text, and what stands before and behind it stays.
pub proof fn law_sequences_are_left_out(a: Seq<char>, params: Seq<char>, c: char, b: Seq<char>)
    requires
        plain(a),
        forall|i: int| 0 <= i < params.len() ==> is_param(#[trigger] params[i]),
        !is_param(c),
    ensures
        ansi_text(a + sequence(params, c) + b) == a + ansi_text(b),
{
    let style = if c == 'm' {
        after_params(Style::plain(), params)
    } else {
        Style::plain()
    };
    lemma_sequence(a, params, c, b);
    lemma_flushed(a, Style::plain());
    lemma_joined_add(flushed(a, Style::plain()), pieces_from(b, 0, style, seq![]));
    lemma_text_of(b, 0, style, Style::plain(), seq![]);
    let t = joined(pieces_from(b, 0, Style::plain(), seq![]));
    assert(Seq::<char>::empty() + t =~= t);
}

proof fn lemma_sequence(a: Seq<char>, params: Seq<char>, c: char, b: Seq<char>)
    requires
        plain(a),
        forall|i: int| 0 <= i < params.len() ==> is_param(#[trigger] params[i]),
        !is_param(c),
    ensures
        ansi_pieces(a + sequence(params, c) + b) == flushed(a, Style::plain()) + pieces_from(
            b,
            0,
            if c == 'm' {
                after_params(Style::plain(), params)
            } else {
                Style::plain()
            },
            seq![],
        ),
{
    let q = sequence(params, c);
    let s = a + q + b;
    let n = a.len() as int;
    let end = n + 2 + params.len();
    assert forall|k: int| 0 <= k < n implies #[trigger] s[k] != '\u{1b}' by {
        assert(s[k] == a[k]);
    }
    lemma_plain_run(s, 0, n, Style::plain(), seq![]);
    assert(Seq::<char>::empty() + s.subrange(0, n) =~= a);
    assert(s[n] == '\u{1b}' && s[n + 1] == '[');
    assert forall|k: int| n + 2 <= k < end implies is_param(#[trigger] s[k]) by {
        assert(s[k] == params[k - n - 2]);
    }
    assert(s[end] == c);
    lemma_params(s, n + 2, end);
    assert(s.subrange(n + 2, end) =~= params);
    lemma_behind(a + q, b, 0, if c == 'm' {
        after_params(Style::plain(), params)
    } else {
        Style::plain()
    }, seq![]);
}

/// A sequence with the command `m` sets the style of what stands behind it, and
/// nothing before it; another command sets none.
pub proof fn law_style_from_here(a: Seq<char>, params: Seq<char>, c: char, b: Seq<char>)
    requires
        plain(a),
        plain(b),
        a.len() > 0,
        b.len() > 0,
        forall|i: int| 0 <= i < params.len() ==> is_param(#[trigger] params[i]),
        !is_param(c),
    ensures
        ansi_pieces(a + sequence(params, c) + b) == seq![
            Piece { text: a, style: Style::plain() },
            Piece {
                text: b,
                style: if c == 'm' {
                    after_params(Style::plain(), params)
                } else {
                    Style::plain()
                },
            },
        ],
{
    let style = if c == 'm' {
        after_params(Style::plain(), params)
    } else {
        Style::plain()
    };
    lemma_sequence(a, params, c, b);
    lemma_plain_run(b, 0, b.len() as int, style, seq![]);
    assert(Seq::<char>::empty() + b.subrange(0, b.len() as int) =~= b);
    assert(flushed(a, Style::plain()) + flushed(b, style) =~= seq![
        Piece { text: a, style: Style::plain() },
        Piece { text: b, style },
    ]);
}

/// Codes are taken one after the other.
pub proof fn law_codes_in_order(style: Style, codes: Seq<u32>, code: u32)
    requires
        forall|i: int| 0 <= i < codes.len() ==> #[trigger] codes[i] != 38 && codes[i] != 48,
        code != 38,
        code != 48,
    ensures
        after_codes(style, codes.push(code), 0) == after_code(after_codes(style, codes, 0), code as int),
{
    lemma_codes_push(style, codes, code, 0);
}

proof fn lemma_codes_push(style: Style, codes: Seq<u32>, code: u32, i: int)
    requires
        0 <= i <= codes.len(),
        forall|i: int| 0 <= i < codes.len() ==> #[trigger] codes[i] != 38 && codes[i] != 48,
        code != 38,
        code != 48,
    ensures
        after_codes(style, codes.push(code), i) == after_code(after_codes(style, codes, i), code as int),
    decreases codes.len() - i,
{
    let more = codes.push(code);
    reveal_with_fuel(after_codes, 2);
    if i < codes.len() {
        assert(more[i] == codes[i]);
        lemma_codes_push(after_code(style, codes[i] as int), codes, code, i + 1);
    } else {
        assert(more[i] == code);
    }
}

/// A code for a colour sets the colour of the letters, ten more that of the
/// background, to the same colour; the other of the two, and the emphasis, stay.
pub proof fn law_colour_codes(style: Style, k: int)
    requires
        0 <= k <= 7 || k == 9,
    ensures
        ({
            let f = after_code(style, 30 + k);
            let b = after_code(style, 40 + k);
            &&& f.fg is Some && b.bg == f.fg
            &&& f.bg == style.bg && b.fg == style.fg
            &&& f.on == style.on && b.on == style.on
            &&& f.off == style.off && b.off == style.off
        }),
        k <= 7 ==> {
            let f = after_code(style, 90 + k);
            &&& f.fg is Some && f.fg != after_code(style, 30 + k).fg
            &&& f.bg == style.bg && f.on == style.on && f.off == style.off
        },
        forall|j: int| 0 <= j <= 7 && j != k && k <= 7 ==> #[trigger] after_code(style, 30 + j).fg != after_code(
            style,
            30 + k,
        ).fg,
        after_code(style, 0) == Style::plain(),
{
}

/// The codes of the eight colours, in order.
pub proof fn law_colour_names(style: Style)
    ensures
        after_code(style, 30).fg == Some(RatColor::Black),
        after_code(style, 31).fg == Some(RatColor::Red),
        after_code(style, 32).fg == Some(RatColor::Green),
        after_code(style, 33).fg == Some(RatColor::Yellow),
        after_code(style, 34).fg == Some(RatColor::Blue),
        after_code(style, 35).fg == Some(RatColor::Magenta),
        after_code(style, 36).fg == Some(RatColor::Cyan),
        after_code(style, 91).fg == Some(RatColor::LightRed),
        after_code(style, 92).fg == Some(RatColor::LightGreen),
        after_code(style, 93).fg == Some(RatColor::LightYellow),
        after_code(style, 94).fg == Some(RatColor::LightBlue),
        after_code(style, 95).fg == Some(RatColor::LightMagenta),
        after_code(style, 96).fg == Some(RatColor::LightCyan),
{
}

/// A code for emphasis turns it on and leaves the colours and the other emphasis; the
/// code twenty above turns it off again, that for bold text also dim text.
pub proof fn law_emphasis_codes(style: Style)
    ensures
        ({
            let after = |c: int| after_code(style, c);
            &&& after(1).on == (Emphasis { bold: true, ..style.on })
            &&& after(2).on == (Emphasis { dim: true, ..style.on })
            &&& after(3).on == (Emphasis { italic: true, ..style.on })
            &&& after(4).on == (Emphasis { underlined: true, ..style.on })
            &&& after(7).on == (Emphasis { reversed: true, ..style.on })
            &&& after(22).on == (Emphasis { bold: false, dim: false, ..style.on })
            &&& after(23).on == (Emphasis { italic: false, ..style.on })
            &&& after(24).on == (Emphasis { underlined: false, ..style.on })
            &&& after(27).on == (Emphasis { reversed: false, ..style.on })
        }),
        forall|c: int|
            1 <= c <= 27 ==> (#[trigger] after_code(style, c)).fg == style.fg && after_code(style, c).bg == style.bg,
{
}

proof fn lemma_after_extended(style: Style, codes: Seq<u32>, more: u32)
    requires
        codes.len() == 4 || codes.len() == 6,
        codes.len() == 4 ==> codes[1] == 5 && codes[3] == more,
        codes.len() == 6 ==> codes[1] == 2 && codes[5] == more,
        codes[0] == 38 || codes[0] == 48,
        more != 38,
        more != 48,
    ensures
        extended_color(codes, 0) matches Some((c, n)) && n + 1 == codes.len() && after_codes(style, codes, 0)
            == after_code(
            if codes[0] == 38 {
                style.fg(c)
            } else {
                style.bg(c)
            },
            more as int,
        ),
{
    let n = codes.len() as int;
    let (c, k) = extended_color(codes, 0)->0;
    let next = if codes[0] == 38 {
        style.fg(c)
    } else {
        style.bg(c)
    };
    let last = after_code(next, more as int);
    assert(after_codes(last, codes, n) == last);
    assert(after_codes(next, codes, n - 1) == last);
    assert(after_codes(style, codes, 0) == after_codes(next, codes, n - 1));
}

/// An extended code names a colour by its number, for the text or for what is behind it;
/// the codes behind it count as ever.
pub proof fn law_numbered_colours(style: Style, n: u32, more: u32)
    requires
        n < 256,
        more != 38,
        more != 48,
    ensures
        after_codes(style, seq![38u32, 5u32, n, more], 0) == after_code(
            (Style { fg: Some(RatColor::Indexed(n as u8)), ..style }),
            more as int,
        ),
        after_codes(style, seq![48u32, 5u32, n, more], 0) == after_code(
            (Style { bg: Some(RatColor::Indexed(n as u8)), ..style }),
            more as int,
        ),
{
    lemma_after_extended(style, seq![38u32, 5u32, n, more], more);
    lemma_after_extended(style, seq![48u32, 5u32, n, more], more);
}

/// An extended code names a colour by its three channels, for the text or for what is
/// behind it; the codes behind it count as ever.
pub proof fn law_mixed_colours(style: Style, r: u32, g: u32, b: u32, more: u32)
    requires
        r < 256,
        g < 256,
        b < 256,
        more != 38,
        more != 48,
    ensures
        after_codes(style, seq![38u32, 2u32, r, g, b, more], 0) == after_code(
            (Style { fg: Some(RatColor::Rgb(r as u8, g as u8, b as u8)), ..style }),
            more as int,
        ),
        after_codes(style, seq![48u32, 2u32, r, g, b, more], 0) == after_code(
            (Style { bg: Some(RatColor::Rgb(r as u8, g as u8, b as u8)), ..style }),
            more as int,
        ),
{
    lemma_after_extended(style, seq![38u32, 2u32, r, g, b, more], more);
    lemma_after_extended(style, seq![48u32, 2u32, r, g, b, more], more);
}

/// The parameters of a sequence are digits, the marks between them and question marks.
pub proof fn law_parameters(c: char)
    ensures
        '0' <= c <= '9' ==> is_param(c),
        is_param(';') && is_param('?'),
        is_param(c) ==> '0' <= c <= '9' || c == ';' || c == '?',
{
}

} // verus!
