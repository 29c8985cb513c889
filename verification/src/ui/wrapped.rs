//! One line of the log as it stands on the screen when lines are wrapped.

use super::row::{self, line_bg, put_head, Marks, Pens};
use super::span::{self, blanks, pad, put, put_if_any, put_line, put_str, Span};
use crate::ansi::Piece;
use crate::arith::{self, max_of, min_of, sum_up_to};
use crate::config::theme;
use crate::logitem::{self, LogItem, LogView};
use crate::state::view::{self, StateView, VisualMode};
use crate::state::{self, AppState};
use crate::style::{RatColor, Style};
use crate::text::chars_of;
use crate::wrap::{self, get_log_visual_chunks, get_unfolded_content_width, ChunkView, VisualChunk};
use vstd::prelude::*;
use vstd::slice::slice_subrange;

verus! {

// ---------------------------------------------------------------------------
// Text with a selection in it
// ---------------------------------------------------------------------------

/// A text, of which the columns from `a` to `b` are selected: what stands before,
/// in and behind them. `col` is the column of the first character.
pub open spec fn runs(s: Seq<char>, col: int, cols: Option<(int, int)>, style: Style, sel: Style) -> Seq<Piece> {
    match cols {
        None => span::styled_if_any(s, style),
        Some((a, b)) => if a > b {
            span::styled_if_any(s, style)
        } else {
            let n = s.len() as int;
            let lo = arith::lesser(arith::less(a, col), n);
            let hi = arith::lesser(arith::less(b + 1, col), n);
            span::styled_if_any(s.take(lo), style) + span::styled_if_any(s.subrange(lo, hi), sel)
                + span::styled_if_any(s.skip(hi), style)
        },
    }
}

pub fn push_styled_slice_with_sel(
    spans: &mut Vec<Span>,
    text: &str,
    global_start_col: usize,
    sel_range: Option<(usize, usize)>,
    default_style: Style,
    sel_style: Style,
)
    ensures
        span::spans_view(final(spans)@) == span::spans_view(old(spans)@) + runs(
            text@,
            global_start_col as int,
            row::cols_view(sel_range),
            default_style,
            sel_style,
        ),
{
    let v = chars_of(text);
    let s = v.as_slice();
    let n: usize = v.len();
    match sel_range {
        None => {
            put_if_any(spans, s, default_style);
        },
        Some((a, b)) => {
            if a > b {
                put_if_any(spans, s, default_style);
            } else {
                let ghost before = span::spans_view(spans@);
                let lo: usize = min_of(a.saturating_sub(global_start_col), n);
                let hi: usize = if b < global_start_col {
                    0
                } else {
                    sum_up_to(b - global_start_col, 1, n)
                };
                put_if_any(spans, slice_subrange(s, 0, lo), default_style);
                put_if_any(spans, slice_subrange(s, lo, hi), sel_style);
                put_if_any(spans, slice_subrange(s, hi, n), default_style);
                assert(s@.subrange(0, lo as int) =~= text@.take(lo as int));
                assert(s@.subrange(hi as int, n as int) =~= text@.skip(hi as int));
                assert(span::spans_view(spans@) =~= before + runs(
                    text@,
                    global_start_col as int,
                    row::cols_view(sel_range),
                    default_style,
                    sel_style,
                ));
            }
        },
    }
}

// ---------------------------------------------------------------------------
// Wrapped lines
// ---------------------------------------------------------------------------

/// The style of the text of a wrapped line.
pub open spec fn text_style(p: Pens, m: Marks) -> Style {
    (if m.dimmed {
        Style::plain().fg(theme::terminal_color(p.theme.dim))
    } else {
        Style::plain().fg(theme::terminal_color(p.theme.fg))
    }).patch(row::base_bg(p, m))
}

fn style_of_text(p: &Pens, m: &Marks) -> (r: Style)
    ensures
        r == text_style(*p, *m),
{
    let own = if m.dimmed {
        Style::plain().fg(p.theme.dim.to_ratatui())
    } else {
        Style::plain().fg(p.theme.fg.to_ratatui())
    };
    own.patch(line_bg(p, m))
}

/// The columns before the text of a wrapped line.
pub open spec fn indent(prefix: int, m: Marks) -> int {
    if m.toggled {
        prefix + 2
    } else {
        prefix
    }
}

/// What stands before a part: the mark and the tag before the first, blanks before the others.
pub open spec fn part_head(log: LogView, first: bool, p: Pens, m: Marks) -> Seq<Piece> {
    if first {
        row::head(log.tag(), log.service, p, m)
    } else {
        seq![span::styled(span::blank(indent(log.prefix_len() as int, m)), row::base_bg(p, m))]
    }
}

/// What stands behind a part that others follow.
pub open spec fn part_tail(cont: bool, p: Pens, m: Marks) -> Seq<Piece> {
    if cont {
        seq![span::styled(" ↵"@, Style::plain().fg(RatColor::DarkGray).patch(row::base_bg(p, m)))]
    } else {
        seq![]
    }
}

/// The style of the blanks behind a part: `in_lines` is whether the line is
/// selected as a whole.
pub open spec fn pad_style(in_lines: bool, p: Pens, m: Marks) -> Style {
    if in_lines {
        p.sel
    } else if m.current {
        p.active
    } else {
        Style::plain()
    }
}

impl StateView {
    /// Whether a row is selected as a whole.
    pub open spec fn in_line_selection(self, row: int) -> bool {
        &&& self.visual_mode == VisualMode::Line
        &&& self.visual_anchor matches Some(a)
        &&& arith::lesser(a.0 as int, self.cursor_row) <= row <= arith::greater(a.0 as int, self.cursor_row)
    }

    /// A part of a line of `log`, in the given row, as it is drawn.
    pub open spec fn part_line(self, log: LogView, row: int, part: ChunkView, first: bool, p: Pens, m: Marks) -> Seq<
        Piece,
    > {
        let cols = self.selected_cols(row, log.full_line().len() as int);
        let text = runs(part.text, log.prefix_len() + part.start, cols, text_style(p, m), p.sel);
        span::padded(
            part_head(log, first, p, m) + text + part_tail(part.cont, p, m),
            self.viewport_width,
            pad_style(self.in_line_selection(row), p, m),
        )
    }

    /// The parts of a line.
    pub open spec fn parts(self, log: LogView) -> Seq<ChunkView> {
        wrap::chunks_of(log.content, self.wrap_width(log))
    }

    /// The first `n` parts of a line as they are drawn.
    pub open spec fn part_lines(self, log: LogView, row: int, n: int, p: Pens, m: Marks) -> Seq<Seq<Piece>> {
        Seq::new(n as nat, |i: int| self.part_line(log, row, self.parts(log)[i], i == 0, p, m))
    }
}

fn put_part_head(line: &mut Vec<Span>, log: &LogItem, first: bool, p: &Pens, m: &Marks)
    requires
        log@.tag_fits(),
    ensures
        span::spans_view(final(line)@) == span::spans_view(old(line)@) + part_head(log@, first, *p, *m),
{
    let ghost before = span::spans_view(line@);
    if first {
        put_head(line, log, p, m);
    } else {
        proof {
            logitem::law_tag_is_short(log@.service);
        }
        let prefix: usize = log.prefix_len();
        let n: usize = if m.toggled {
            prefix + 2
        } else {
            prefix
        };
        put(line, blanks(n), line_bg(p, m));
    }
    assert(span::spans_view(line@) =~= before + part_head(log@, first, *p, *m));
}

fn put_part_tail(line: &mut Vec<Span>, cont: bool, p: &Pens, m: &Marks)
    ensures
        span::spans_view(final(line)@) == span::spans_view(old(line)@) + part_tail(cont, *p, *m),
{
    let ghost before = span::spans_view(line@);
    if cont {
        put_str(line, " ↵", Style::plain().fg(RatColor::DarkGray).patch(line_bg(p, m)));
    }
    assert(span::spans_view(line@) =~= before + part_tail(cont, *p, *m));
}

impl AppState {
    /// Whether a row is selected as a whole.
    fn is_in_line_selection(&self, row: usize) -> (r: bool)
        ensures
            r == self@.in_line_selection(row as int),
    {
        if self.visual_mode == VisualMode::Line {
            match self.visual_anchor {
                Some((anchor_row, _)) => {
                    row >= min_of(anchor_row, self.cursor_row) && row <= max_of(anchor_row, self.cursor_row)
                },
                None => false,
            }
        } else {
            false
        }
    }

    /// A part of a line of `log`, in the given row, as it is drawn.
    fn draw_part(&self, log: &LogItem, row: usize, part: &VisualChunk, first: bool, p: &Pens, m: &Marks) -> (r: Vec<
        Span,
    >)
        requires
            view::showable(log@),
            self@.range_fits(row as int, log@.full_line().len() as int),
            log@.tag_fits(),
            part.content_char_start <= log@.content.len(),
        ensures
            span::spans_view(r@) == self@.part_line(log@, row as int, part@, first, *p, *m),
    {
        proof {
            state::lemma_showable(log@);
        }
        let total: usize = log.full_line_text().as_str().unicode_len();
        let cols = self.get_line_selection_col_range(row, total);
        let mut line: Vec<Span> = Vec::new();
        assert(span::spans_view(line@) =~= seq![]);
        put_part_head(&mut line, log, first, p, m);
        assert(span::spans_view(line@) =~= part_head(log@, first, *p, *m));
        let col: usize = log.prefix_len() + part.content_char_start;
        push_styled_slice_with_sel(&mut line, part.text.as_str(), col, cols, style_of_text(p, m), p.sel);
        put_part_tail(&mut line, part.has_continuation, p, m);
        let behind = if self.is_in_line_selection(row) {
            p.sel
        } else if m.current {
            p.active
        } else {
            Style::plain()
        };
        pad(&mut line, self.viewport_width, behind);
        line
    }

    /// Adds the parts of a line of `log`, in the given row, as far as there is room.
    pub(crate) fn draw_parts(&self, lines: &mut Vec<Vec<Span>>, log: &LogItem, row: usize, room: usize, p: &Pens, m: &Marks)
        requires
            view::showable(log@),
            self@.range_fits(row as int, log@.full_line().len() as int),
            log@.tag_fits(),
        ensures
            span::lines_view(final(lines)@) == span::lines_view(old(lines)@) + self@.part_lines(
                log@,
                row as int,
                arith::lesser(room as int, self@.parts(log@).len() as int),
                *p,
                *m,
            ),
    {
        let ghost before = span::lines_view(lines@);
        let ghost parts = self@.parts(log@);
        let width: usize = get_unfolded_content_width(self.viewport_width, log.prefix_len());
        let chunks = get_log_visual_chunks(log.content.as_str(), width);
        let n: usize = min_of(room, chunks.len());
        let mut i: usize = 0;
        assert(before =~= before + self@.part_lines(log@, row as int, 0, *p, *m));
        while i < n
            invariant
                i <= n <= chunks@.len(),
                view::showable(log@),
                self@.range_fits(row as int, log@.full_line().len() as int),
                log@.tag_fits(),
                parts == self@.parts(log@),
                wrap::chunks_view(chunks@) == parts,
                span::lines_view(lines@) == before + self@.part_lines(log@, row as int, i as int, *p, *m),
            decreases n - i,
        {
            assert(parts[i as int] == chunks@[i as int]@);
            proof {
                wrap::law_chunks_inside(log@.content, self@.wrap_width(log@));
            }
            let line = self.draw_part(log, row, &chunks[i], i == 0, p, m);
            put_line(lines, line);
            i += 1;
            assert(span::lines_view(lines@) =~= before + self@.part_lines(log@, row as int, i as int, *p, *m));
        }
    }
}

} // verus!
