//! One line of the log as it stands on the screen when lines are cut.

use super::span::{self, put, put_if_any, put_str, Span};
use crate::ansi::{self, AnsiSegment, Piece};
use crate::arith::{self, max_of, min_of, sum_up_to};
use crate::config::theme::{self, Color, UiTheme};
use crate::logitem::{LogItem, LogView};
use crate::state::view::{self, StateView, VisualMode};
use crate::state::{self, AppState};
use crate::style::{Emphasis, RatColor, Style};
use crate::text::{self, chars_of, str_has, string_of};
use vstd::prelude::*;
use vstd::slice::slice_subrange;
use vstd::utf8::*;

verus! {

// ---------------------------------------------------------------------------
// Colours
// ---------------------------------------------------------------------------

/// The hash of the first `n` bytes: each step multiplies by 33 and adds a byte,
/// in machine numbers.
pub open spec fn hash_of(bytes: Seq<u8>, n: int) -> int
    decreases n,
{
    if !(0 < n <= bytes.len()) {
        5381
    } else {
        (hash_of(bytes, n - 1) * 33 + bytes[n - 1]) % (usize::MAX + 1)
    }
}

/// The colours that services are told apart by.
pub open spec fn service_palette() -> Seq<RatColor> {
    seq![
        RatColor::Cyan,
        RatColor::LightCyan,
        RatColor::LightGreen,
        RatColor::Yellow,
        RatColor::LightYellow,
        RatColor::Blue,
        RatColor::LightBlue,
        RatColor::Magenta,
        RatColor::LightMagenta,
        RatColor::Green,
    ]
}

/// The colour of a service.
pub open spec fn service_color(service: Seq<char>) -> RatColor {
    let bytes = encode_utf8(service);
    service_palette()[hash_of(bytes, bytes.len() as int) % 10]
}

pub fn get_service_color(service: &str) -> (r: RatColor)
    ensures
        r == service_color(service@),
{
    let bytes = service.as_bytes();
    let mut hash: usize = 5381;
    let mut i: usize = 0;
    while i < bytes.len()
        invariant
            i <= bytes@.len(),
            hash == hash_of(bytes@, i as int),
        decreases bytes@.len() - i,
    {
        let wide: u128 = (hash as u128 * 33 + bytes[i] as u128) % (usize::MAX as u128 + 1);
        hash = wide as usize;
        i += 1;
    }
    let k: usize = hash % 10;
    if k == 0 {
        RatColor::Cyan
    } else if k == 1 {
        RatColor::LightCyan
    } else if k == 2 {
        RatColor::LightGreen
    } else if k == 3 {
        RatColor::Yellow
    } else if k == 4 {
        RatColor::LightYellow
    } else if k == 5 {
        RatColor::Blue
    } else if k == 6 {
        RatColor::LightBlue
    } else if k == 7 {
        RatColor::Magenta
    } else if k == 8 {
        RatColor::LightMagenta
    } else {
        RatColor::Green
    }
}

// ---------------------------------------------------------------------------
// What is selected of a line
// ---------------------------------------------------------------------------

impl StateView {
    /// The first and the last selected column of a row that is `total` columns long.
    pub open spec fn selected_cols(self, row: int, total: int) -> Option<(int, int)> {
        if self.visual_anchor is None || total == 0 {
            None
        } else {
            let anchor = self.visual_anchor->0;
            let p = self.prefix_at(row);
            let top = arith::lesser(anchor.0 as int, self.cursor_row);
            let low = arith::greater(anchor.0 as int, self.cursor_row);
            match self.visual_mode {
                VisualMode::Off => None,
                VisualMode::Line => if top <= row <= low {
                    Some((p, total - 1))
                } else {
                    None
                },
                VisualMode::Block => if top <= row <= low {
                    Some(
                        (
                            arith::lesser(
                                arith::greater(arith::lesser(anchor.1 as int, self.cursor_col), p),
                                total - 1,
                            ),
                            arith::lesser(
                                arith::greater(arith::greater(anchor.1 as int, self.cursor_col), p),
                                total - 1,
                            ),
                        ),
                    )
                } else {
                    None
                },
                VisualMode::Character => {
                    let (start, end) = self.corners();
                    if !(start.0 <= row <= end.0) {
                        None
                    } else {
                        Some(
                            (
                                if row == start.0 {
                                    arith::lesser(arith::greater(start.1, p), total - 1)
                                } else {
                                    p
                                },
                                if row == end.0 {
                                    arith::lesser(arith::greater(end.1, p), total - 1)
                                } else {
                                    total - 1
                                },
                            ),
                        )
                    }
                },
            }
        }
    }
}

/// What a pair of columns stands for.
pub open spec fn cols_view(o: Option<(usize, usize)>) -> Option<(int, int)> {
    match o {
        Some((a, b)) => Some((a as int, b as int)),
        None => None,
    }
}

impl StateView {
    /// Whether the line in a row can be measured, where the selection of a line that
    /// is `total` columns long looks at it.
    pub open spec fn range_fits(self, row: int, total: int) -> bool {
        let looked_at = self.visual_anchor matches Some(a) && match self.visual_mode {
            VisualMode::Off => false,
            VisualMode::Character => true,
            _ => arith::lesser(a.0 as int, self.cursor_row) <= row <= arith::greater(a.0 as int, self.cursor_row),
        };
        total > 0 && looked_at ==> self.fits_at(row)
    }
}

impl AppState {
    /// The first and the last selected column of a row that is `total_cols` columns long.
    pub fn get_line_selection_col_range(&self, row: usize, total_cols: usize) -> (r: Option<(usize, usize)>)
        requires
            self@.range_fits(row as int, total_cols as int),
        ensures
            cols_view(r) == self@.selected_cols(row as int, total_cols as int),
            r matches Some((a, b)) ==> b < total_cols,
    {
        if total_cols == 0 {
            return None;
        }
        let last: usize = total_cols - 1;
        match self.visual_anchor {
            None => None,
            Some((anchor_row, anchor_col)) => {
                let min_r: usize = min_of(anchor_row, self.cursor_row);
                let max_r: usize = max_of(anchor_row, self.cursor_row);
                match self.visual_mode {
                    VisualMode::Off => None,
                    VisualMode::Line => {
                        if row >= min_r && row <= max_r {
                            Some((self.prefix_at(row), last))
                        } else {
                            None
                        }
                    },
                    VisualMode::Block => {
                        if row >= min_r && row <= max_r {
                            let p_len: usize = self.prefix_at(row);
                            let min_c: usize = max_of(min_of(anchor_col, self.cursor_col), p_len);
                            let max_c: usize = max_of(max_of(anchor_col, self.cursor_col), p_len);
                            Some((min_of(min_c, last), min_of(max_c, last)))
                        } else {
                            None
                        }
                    },
                    VisualMode::Character => {
                        let p_len: usize = self.prefix_at(row);
                        let ordered = anchor_row < self.cursor_row || (anchor_row == self.cursor_row && anchor_col
                            <= self.cursor_col);
                        let (start_row, start_col, end_row, end_col): (usize, usize, usize, usize) = if ordered {
                            (anchor_row, anchor_col, self.cursor_row, self.cursor_col)
                        } else {
                            (self.cursor_row, self.cursor_col, anchor_row, anchor_col)
                        };
                        if row < start_row || row > end_row {
                            return None;
                        }
                        let from: usize = if row == start_row {
                            min_of(max_of(start_col, p_len), last)
                        } else {
                            p_len
                        };
                        let to: usize = if row == end_row {
                            min_of(max_of(end_col, p_len), last)
                        } else {
                            last
                        };
                        Some((from, to))
                    },
                }
            },
        }
    }
}

// ---------------------------------------------------------------------------
// Styles
// ---------------------------------------------------------------------------

/// What a line is drawn with.
#[derive(Clone, Copy)]
pub struct Pens {
    pub theme: UiTheme,
    /// The style of selected text.
    pub sel: Style,
    /// The style of the line that the cursor is on.
    pub active: Style,
}

/// How a line stands on the screen.
#[derive(Clone, Copy)]
pub struct Marks {
    /// Whether the cursor is on the line and nothing is being selected.
    pub current: bool,
    /// Whether the line is marked.
    pub toggled: bool,
    /// Whether the filter being typed leaves the line out.
    pub dimmed: bool,
}

/// The background of a line.
pub open spec fn base_bg(p: Pens, m: Marks) -> Style {
    if m.current {
        p.active
    } else if m.toggled {
        Style::plain().bg(theme::terminal_color(p.theme.selection_bg))
    } else {
        Style::plain()
    }
}

pub fn line_bg(p: &Pens, m: &Marks) -> (r: Style)
    ensures
        r == base_bg(*p, *m),
{
    if m.current {
        p.active
    } else if m.toggled {
        Style::plain().bg(p.theme.selection_bg.to_ratatui())
    } else {
        Style::plain()
    }
}

/// The colour of a line of the viewer's own, by what it tells, and whether it is bold.
pub open spec fn system_color(content: Seq<char>, theme: UiTheme) -> (Color, bool) {
    if text::contains(content, "DIE"@) || text::contains(content, "KILL"@) {
        (theme.status_error, true)
    } else if text::contains(content, "RESTART"@) {
        (theme.status_warn, true)
    } else if text::contains(content, "START"@) {
        (theme.status_active, true)
    } else {
        (theme.status_warn, false)
    }
}

fn color_of_system(content: &str, theme: &UiTheme) -> (r: (Color, bool))
    ensures
        r == system_color(content@, *theme),
{
    if str_has(content, "DIE") || str_has(content, "KILL") {
        (theme.status_error, true)
    } else if str_has(content, "RESTART") {
        (theme.status_warn, true)
    } else if str_has(content, "START") {
        (theme.status_active, true)
    } else {
        (theme.status_warn, false)
    }
}

/// The style of a line of the viewer's own.
pub open spec fn system_style(content: Seq<char>, p: Pens, m: Marks) -> Style {
    let (color, bold) = system_color(content, p.theme);
    (if m.dimmed {
        Style::plain().fg(theme::terminal_color(p.theme.dim)).with(Emphasis::dim())
    } else if bold {
        Style::plain().fg(theme::terminal_color(color)).with(Emphasis::bold())
    } else {
        Style::plain().fg(theme::terminal_color(color))
    }).patch(base_bg(p, m))
}

fn style_of_system(content: &str, p: &Pens, m: &Marks) -> (r: Style)
    ensures
        r == system_style(content@, *p, *m),
{
    let (color, bold) = color_of_system(content, &p.theme);
    let own = if m.dimmed {
        Style::plain().fg(p.theme.dim.to_ratatui()).with(Emphasis::dim())
    } else if bold {
        Style::plain().fg(color.to_ratatui()).with(Emphasis::bold())
    } else {
        Style::plain().fg(color.to_ratatui())
    };
    own.patch(line_bg(p, m))
}

/// The style of a tag: the service's colour, or none if the line is left out.
pub open spec fn tag_style(service: Seq<char>, p: Pens, m: Marks) -> Style {
    (if m.dimmed {
        Style::plain().fg(theme::terminal_color(p.theme.dim))
    } else {
        Style::plain().fg(service_color(service)).with(Emphasis::bold())
    }).patch(base_bg(p, m))
}

pub fn style_of_tag(service: &str, p: &Pens, m: &Marks) -> (r: Style)
    ensures
        r == tag_style(service@, *p, *m),
{
    let own = if m.dimmed {
        Style::plain().fg(p.theme.dim.to_ratatui())
    } else {
        Style::plain().fg(get_service_color(service)).with(Emphasis::bold())
    };
    own.patch(line_bg(p, m))
}

/// The style of a piece of content: its own, on the line's background unless it has one.
pub open spec fn piece_style(own: Style, p: Pens, m: Marks) -> Style {
    if m.dimmed {
        Style::plain().fg(theme::terminal_color(p.theme.dim)).patch(base_bg(p, m))
    } else if own.bg is Some {
        own
    } else {
        own.patch(base_bg(p, m))
    }
}

fn style_of_piece(own: Style, p: &Pens, m: &Marks) -> (r: Style)
    ensures
        r == piece_style(own, *p, *m),
{
    if m.dimmed {
        Style::plain().fg(p.theme.dim.to_ratatui()).patch(line_bg(p, m))
    } else if own.bg.is_some() {
        own
    } else {
        own.patch(line_bg(p, m))
    }
}

/// The mark before a marked line.
pub open spec fn check_mark(p: Pens, m: Marks) -> Seq<Piece> {
    if m.toggled {
        seq![
            span::styled(
                "✔ "@,
                Style::plain().fg(theme::terminal_color(p.theme.status_active)).patch(base_bg(p, m)),
            ),
        ]
    } else {
        seq![]
    }
}

/// The mark and the tag before a line.
pub open spec fn head(tag: Seq<char>, service: Seq<char>, p: Pens, m: Marks) -> Seq<Piece> {
    check_mark(p, m).push(span::styled(tag, tag_style(service, p, m)))
}

pub fn put_head(line: &mut Vec<Span>, log: &LogItem, p: &Pens, m: &Marks)
    requires
        log@.tag_fits(),
    ensures
        span::spans_view(final(line)@) == span::spans_view(old(line)@) + head(log@.tag(), log@.service, *p, *m),
{
    let ghost before = span::spans_view(line@);
    if m.toggled {
        put_str(line, "✔ ", Style::plain().fg(p.theme.status_active.to_ratatui()).patch(line_bg(p, m)));
    }
    put(line, log.tag_text(), style_of_tag(log.service.as_str(), p, m));
    assert(span::spans_view(line@) =~= before + head(log@.tag(), log@.service, *p, *m));
}

// ---------------------------------------------------------------------------
// Content
// ---------------------------------------------------------------------------

impl StateView {
    /// What is seen of a content of `n` characters beside a tag of `prefix`: where
    /// it begins and ends, and whether some of it is cut off to the left and to
    /// the right.
    pub open spec fn window(self, prefix: int, n: int) -> (int, int, bool, bool) {
        let avail = arith::less(self.viewport_width, prefix);
        if avail <= 2 {
            (0, n, false, false)
        } else {
            let left = self.h_scroll > 0 && n > 0;
            let room = if left {
                avail - 1
            } else {
                avail
            };
            let right = self.h_scroll + room < n;
            let shown = if right {
                room - 1
            } else {
                room
            };
            (arith::lesser(self.h_scroll, n), arith::lesser(self.h_scroll + shown, n), left, right)
        }
    }

    /// The place of the cursor in a content of `n` characters behind a tag of `prefix`.
    pub open spec fn content_cursor(self, prefix: int, n: int) -> int {
        arith::lesser(arith::less(self.cursor_col, prefix), n)
    }
}

/// Characters one by one, those in the selected columns in their own style.
/// `col` is the column of the first.
pub open spec fn single_chars(s: Seq<char>, col: int, cols: (int, int), style: Style, sel: Style) -> Seq<Piece> {
    Seq::new(
        s.len(),
        |i: int|
            span::styled(
                seq![s[i]],
                if cols.0 <= col + i <= cols.1 {
                    sel
                } else {
                    style
                },
            ),
    )
}

/// What is drawn of the pieces from `k` on, of which the first begins at `at`:
/// what lies in the window.
pub open spec fn seen_pieces(
    pieces: Seq<Piece>,
    k: int,
    at: int,
    win: (int, int),
    prefix: int,
    cols: Option<(int, int)>,
    p: Pens,
    m: Marks,
) -> Seq<Piece>
    decreases pieces.len() - k,
{
    if !(0 <= k < pieces.len()) {
        seq![]
    } else {
        let end = at + pieces[k].text.len();
        let here = if end <= win.0 || at >= win.1 {
            seq![]
        } else {
            let from = arith::less(win.0, at);
            let part = pieces[k].text.subrange(from, arith::lesser(win.1, end) - at);
            let style = piece_style(pieces[k].style, p, m);
            match cols {
                None => seq![span::styled(part, style)],
                Some(c) => single_chars(part, prefix + at + from, c, style, p.sel),
            }
        };
        here + seen_pieces(pieces, k + 1, end, win, prefix, cols, p, m)
    }
}

fn put_single_chars(line: &mut Vec<Span>, s: &[char], col: usize, cols: (usize, usize), style: Style, sel: Style)
    requires
        col + s@.len() <= usize::MAX,
    ensures
        span::spans_view(final(line)@) == span::spans_view(old(line)@) + single_chars(
            s@,
            col as int,
            (cols.0 as int, cols.1 as int),
            style,
            sel,
        ),
{
    let ghost before = span::spans_view(line@);
    let ghost all = single_chars(s@, col as int, (cols.0 as int, cols.1 as int), style, sel);
    let mut i: usize = 0;
    assert(before =~= before + all.take(0));
    while i < s.len()
        invariant
            i <= s@.len(),
            col + s@.len() <= usize::MAX,
            all == single_chars(s@, col as int, (cols.0 as int, cols.1 as int), style, sel),
            span::spans_view(line@) == before + all.take(i as int),
        decreases s@.len() - i,
    {
        let at: usize = col + i;
        let one = slice_subrange(s, i, i + 1);
        assert(one@ =~= seq![s@[i as int]]);
        let pen = if cols.0 <= at && at <= cols.1 {
            sel
        } else {
            style
        };
        put(line, string_of(one), pen);
        i += 1;
        assert(span::spans_view(line@) =~= before + all.take(i as int));
    }
    assert(all.take(i as int) =~= all);
}

fn put_seen_pieces(
    line: &mut Vec<Span>,
    segments: &Vec<AnsiSegment>,
    win: (usize, usize),
    prefix: usize,
    cols: Option<(usize, usize)>,
    p: &Pens,
    m: &Marks,
)
    requires
        win.0 <= win.1,
        prefix + win.1 < usize::MAX,
    ensures
        span::spans_view(final(line)@) == span::spans_view(old(line)@) + seen_pieces(
            ansi::pieces_of(segments@),
            0,
            0,
            (win.0 as int, win.1 as int),
            prefix as int,
            cols_view(cols),
            *p,
            *m,
        ),
{
    let ghost before = span::spans_view(line@);
    let ghost pieces = ansi::pieces_of(segments@);
    let ghost w = (win.0 as int, win.1 as int);
    let ghost all = seen_pieces(pieces, 0, 0, w, prefix as int, cols_view(cols), *p, *m);
    let ghost mut place: int = 0;
    let mut at: usize = 0;
    let mut k: usize = 0;
    while k < segments.len()
        invariant
            k <= segments@.len(),
            win.0 <= win.1,
            prefix + win.1 < usize::MAX,
            pieces == ansi::pieces_of(segments@),
            w == (win.0 as int, win.1 as int),
            0 <= place,
            at == arith::lesser(place, usize::MAX as int),
            before + all == span::spans_view(line@) + seen_pieces(
                pieces,
                k as int,
                place,
                w,
                prefix as int,
                cols_view(cols),
                *p,
                *m,
            ),
        decreases segments@.len() - k,
    {
        let seg = &segments[k];
        assert(pieces[k as int] == seg@);
        let chars = chars_of(seg.text.as_str());
        let n: usize = chars.len();
        let end: usize = at.saturating_add(n);
        let ghost was = span::spans_view(line@);
        let ghost tail = seen_pieces(
            pieces,
            k + 1,
            place + n,
            w,
            prefix as int,
            cols_view(cols),
            *p,
            *m,
        );
        if end <= win.0 || at >= win.1 {
            assert(was + (Seq::<Piece>::empty() + tail) =~= was + tail);
        } else {
            let from: usize = win.0.saturating_sub(at);
            let to: usize = min_of(win.1, end) - at;
            let part = slice_subrange(chars.as_slice(), from, to);
            let style = style_of_piece(seg.style, p, m);
            match cols {
                None => {
                    put(line, string_of(part), style);
                    assert(was.push(span::styled(part@, style)) + tail =~= was + (seq![span::styled(part@, style)]
                        + tail));
                },
                Some(c) => {
                    put_single_chars(line, part, prefix + at + from, c, style, p.sel);
                    let ghost singles = single_chars(
                        part@,
                        prefix + at + from,
                        (c.0 as int, c.1 as int),
                        style,
                        p.sel,
                    );
                    assert((was + singles) + tail =~= was + (singles + tail));
                },
            }
        }
        proof {
            place = place + n;
        }
        at = end;
        k += 1;
    }
    assert(span::spans_view(line@) + Seq::<Piece>::empty() =~= span::spans_view(line@));
}

// ---------------------------------------------------------------------------
// The whole line
// ---------------------------------------------------------------------------

/// A line of the viewer's own: what stands before, in and behind the selected columns.
pub open spec fn system_line(log: LogView, cols: Option<(int, int)>, p: Pens, m: Marks) -> Seq<Piece> {
    let style = system_style(log.content, p, m);
    match cols {
        None => seq![span::styled(log.content, style)],
        Some((a, b)) => {
            let s = log.content;
            let n = s.len() as int;
            let from = arith::lesser(a, n);
            span::styled_if_any(s.take(from), style) + span::styled_if_any(
                s.subrange(from, arith::lesser(from + arith::less(b, a) + 1, n)),
                p.sel,
            ) + span::styled_if_any(s.skip(b + 1), style)
        },
    }
}

impl StateView {
    /// What shows that content is cut off to the left: an ellipsis, or an arrow if
    /// the cursor is there.
    pub open spec fn left_edge(self, prefix: int, n: int, p: Pens, m: Marks) -> Seq<Piece> {
        if !self.window(prefix, n).2 {
            seq![]
        } else if m.current && self.content_cursor(prefix, n) < self.h_scroll {
            seq![span::styled("◀"@, Style::plain().fg(RatColor::White).with(Emphasis::bold()).patch(base_bg(p, m)))]
        } else {
            seq![span::styled("…"@, Style::plain().fg(RatColor::DarkGray).patch(base_bg(p, m)))]
        }
    }

    /// What shows that content is cut off to the right.
    pub open spec fn right_edge(self, prefix: int, n: int, p: Pens, m: Marks) -> Seq<Piece> {
        if !self.window(prefix, n).3 {
            seq![]
        } else {
            seq![span::styled("…"@, Style::plain().fg(RatColor::DarkGray).patch(base_bg(p, m)))]
        }
    }

    /// A line with its tag: what lies in the window of its content, and what shows
    /// that there is more.
    pub open spec fn tagged_line(self, log: LogView, cols: Option<(int, int)>, p: Pens, m: Marks) -> Seq<Piece> {
        let prefix = log.prefix_len() as int;
        let n = log.content.len() as int;
        let win = self.window(prefix, n);
        head(log.tag(), log.service, p, m) + self.left_edge(prefix, n, p, m) + seen_pieces(
            log.pieces,
            0,
            0,
            (win.0, win.1),
            prefix,
            cols,
            p,
            m,
        ) + self.right_edge(prefix, n, p, m)
    }

    /// The line of `log`, in the given row, as it is drawn when lines are cut.
    pub open spec fn cut_line(self, log: LogView, row: int, p: Pens, m: Marks) -> Seq<Piece> {
        let cols = self.selected_cols(row, log.full_line().len() as int);
        if log.is_system {
            system_line(log, cols, p, m)
        } else {
            self.tagged_line(log, cols, p, m)
        }
    }
}

fn draw_system_line(log: &LogItem, cols: Option<(usize, usize)>, p: &Pens, m: &Marks) -> (r: Vec<Span>)
    requires
        cols matches Some((a, b)) ==> b < log@.content.len(),
        log@.content.len() < usize::MAX,
    ensures
        span::spans_view(r@) == system_line(log@, cols_view(cols), *p, *m),
{
    let style = style_of_system(log.content.as_str(), p, m);
    let mut line: Vec<Span> = Vec::new();
    assert(span::spans_view(line@) =~= seq![]);
    match cols {
        None => {
            put(&mut line, log.content.clone(), style);
            assert(span::spans_view(line@) =~= system_line(log@, cols_view(cols), *p, *m));
        },
        Some((a, b)) => {
            let v = chars_of(log.content.as_str());
            let n: usize = v.len();
            let s = v.as_slice();
            let from: usize = min_of(a, n);
            let len: usize = b.saturating_sub(a) + 1;
            let to: usize = if len < n - from {
                from + len
            } else {
                n
            };
            assert(s@ =~= log@.content);
            put_if_any(&mut line, slice_subrange(s, 0, from), style);
            put_if_any(&mut line, slice_subrange(s, from, to), p.sel);
            put_if_any(&mut line, slice_subrange(s, b + 1, n), style);
            assert(s@.subrange(0, from as int) =~= log@.content.take(from as int));
            assert(s@.subrange(b + 1, n as int) =~= log@.content.skip(b + 1));
            assert(span::spans_view(line@) =~= system_line(log@, cols_view(cols), *p, *m));
        },
    }
    line
}

impl AppState {
    /// What is seen of a content: where it begins and ends, and whether some of
    /// it is cut off to the left and to the right.
    fn window_of(&self, prefix: usize, n: usize) -> (r: (usize, usize, bool, bool))
        ensures
            self@.window(prefix as int, n as int) == (r.0 as int, r.1 as int, r.2, r.3),
            r.0 <= r.1 <= n,
    {
        let avail: usize = self.viewport_width.saturating_sub(prefix);
        if avail <= 2 {
            (0, n, false, false)
        } else {
            let left = self.h_scroll > 0 && n > 0;
            let room: usize = if left {
                avail - 1
            } else {
                avail
            };
            let right = self.h_scroll.saturating_add(room) < n;
            let shown: usize = if right {
                room - 1
            } else {
                room
            };
            (min_of(self.h_scroll, n), sum_up_to(self.h_scroll, shown, n), left, right)
        }
    }

    fn put_left_edge(&self, line: &mut Vec<Span>, prefix: usize, n: usize, p: &Pens, m: &Marks)
        ensures
            span::spans_view(final(line)@) == span::spans_view(old(line)@) + self@.left_edge(
                prefix as int,
                n as int,
                *p,
                *m,
            ),
    {
        let ghost before = span::spans_view(line@);
        let (_from, _to, left, _right): (usize, usize, bool, bool) = self.window_of(prefix, n);
        if left {
            if m.current && min_of(self.cursor_col.saturating_sub(prefix), n) < self.h_scroll {
                put_str(line, "◀", Style::plain().fg(RatColor::White).with(Emphasis::bold()).patch(line_bg(p, m)));
            } else {
                put_str(line, "…", Style::plain().fg(RatColor::DarkGray).patch(line_bg(p, m)));
            }
        }
        assert(span::spans_view(line@) =~= before + self@.left_edge(prefix as int, n as int, *p, *m));
    }

    fn put_right_edge(&self, line: &mut Vec<Span>, prefix: usize, n: usize, p: &Pens, m: &Marks)
        ensures
            span::spans_view(final(line)@) == span::spans_view(old(line)@) + self@.right_edge(
                prefix as int,
                n as int,
                *p,
                *m,
            ),
    {
        let ghost before = span::spans_view(line@);
        let (_from, _to, _left, right): (usize, usize, bool, bool) = self.window_of(prefix, n);
        if right {
            put_str(line, "…", Style::plain().fg(RatColor::DarkGray).patch(line_bg(p, m)));
        }
        assert(span::spans_view(line@) =~= before + self@.right_edge(prefix as int, n as int, *p, *m));
    }

    fn draw_tagged_line(&self, log: &LogItem, cols: Option<(usize, usize)>, p: &Pens, m: &Marks) -> (r: Vec<Span>)
        requires
            view::showable(log@),
            !log.is_system,
        ensures
            span::spans_view(r@) == self@.tagged_line(log@, cols_view(cols), *p, *m),
    {
        proof {
            state::lemma_showable(log@);
        }
        let prefix: usize = log.prefix_len();
        let n: usize = log.content.as_str().unicode_len();
        let (from, to, _left, _right): (usize, usize, bool, bool) = self.window_of(prefix, n);
        let mut line: Vec<Span> = Vec::new();
        assert(span::spans_view(line@) =~= seq![]);
        put_head(&mut line, log, p, m);
        assert(span::spans_view(line@) =~= head(log@.tag(), log@.service, *p, *m));
        self.put_left_edge(&mut line, prefix, n, p, m);
        put_seen_pieces(&mut line, &log.segments, (from, to), prefix, cols, p, m);
        self.put_right_edge(&mut line, prefix, n, p, m);
        line
    }

    /// The line of `log`, in the given row, as it is drawn when lines are cut.
    pub fn build_styled_log_spans(&self, log: &LogItem, row: usize, p: &Pens, m: &Marks) -> (r: Vec<Span>)
        requires
            view::showable(log@),
            self@.range_fits(row as int, log@.full_line().len() as int),
        ensures
            span::spans_view(r@) == self@.cut_line(log@, row as int, *p, *m),
    {
        let total: usize = log.full_line_text().as_str().unicode_len();
        let cols = self.get_line_selection_col_range(row, total);
        if log.is_system {
            draw_system_line(log, cols, p, m)
        } else {
            self.draw_tagged_line(log, cols, p, m)
        }
    }
}

} // verus!
