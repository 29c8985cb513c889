//! The log pane: which lines stand on it, and where the cursor is.

use super::area::{self, Area};
use super::row::{self, Marks, Pens};
use super::span::{self, pad, put_line, Span};
use crate::ansi::Piece;
use crate::arith::{self, min_of, sum_up_to};
use crate::colors::{
    self, compute_neutral_active_line_style, compute_neutral_selection_style, TerminalColorMode,
};
use crate::config::theme::UiTheme;
use crate::logitem::{can_truncate, LogItem, LogView};
use crate::state::fits::item_showable;
use crate::state::view::{self, PromptMode, StateView, VisualMode};
use crate::state::{self, AppState};
use crate::text::{chars_of, string_of};
use crate::wrap::{
    self, get_log_visual_chunks, get_unfolded_content_width, str_display_width_up_to, ChunkView, VisualChunk,
};
use vstd::prelude::*;
use vstd::slice::slice_subrange;

verus! {

/// What stands on the log pane.
pub struct Pane {
    pub lines: Vec<Vec<Span>>,
    pub cursor: Option<(u16, u16)>,
}

/// What the log pane is drawn with.
pub open spec fn pens(theme: UiTheme, mode: TerminalColorMode, is_dark: bool) -> Pens {
    Pens {
        theme,
        sel: colors::selection_style(mode.bg(), is_dark),
        active: colors::active_line_style(mode.bg(), is_dark),
    }
}

/// A number as a coordinate holds it: its lowest sixteen bits.
pub open spec fn coordinate(n: int) -> int {
    n % 65536
}

/// Whether a part holds the place `c`; the last one holds all that lies behind it.
pub open spec fn part_holds(parts: Seq<ChunkView>, i: int, c: int) -> bool {
    parts[i].start <= c && (c < parts[i].start + parts[i].text.len() || i + 1 == parts.len())
}

/// The last of the first `n` parts that holds the place `c`.
pub open spec fn holder(parts: Seq<ChunkView>, c: int, n: int) -> Option<int>
    decreases n,
{
    if !(0 < n <= parts.len()) {
        None
    } else if part_holds(parts, n - 1, c) {
        Some(n - 1)
    } else {
        holder(parts, c, n - 1)
    }
}

impl StateView {
    /// The state once the pane has its size.
    pub open spec fn sized(self, area: Area) -> StateView {
        StateView { viewport_height: area.height as int, viewport_width: area.width as int, ..self }
    }

    /// Whether the cursor is shown on a row.
    pub open spec fn is_current(self, row: int) -> bool {
        self.visual_mode == VisualMode::Off && row == self.cursor_row
    }

    /// How the line of `log` stands in a row.
    pub open spec fn marks(self, log: LogView, row: int, now: u64) -> Marks {
        Marks {
            current: self.is_current(row),
            toggled: self.row_toggled(row),
            dimmed: self.live_filter_ast is Some && !self.live_filter_ast->0.accepts(log, now),
        }
    }

    // -- Cut lines ----------------------------------------------------------

    /// The line in a row, filled up if the cursor is on it.
    pub open spec fn cut_row(self, log: LogView, row: int, now: u64, p: Pens) -> Seq<Piece> {
        let m = self.marks(log, row, now);
        let line = self.cut_line(log, row, p, m);
        if m.current {
            span::padded(line, self.viewport_width, p.active)
        } else {
            line
        }
    }

    /// The lines of the rows from `a` to before `b`.
    pub open spec fn cut_rows(self, a: int, b: int, now: u64, p: Pens) -> Seq<Seq<Piece>>
        decreases b - a,
    {
        if a >= b {
            seq![]
        } else {
            let before = self.cut_rows(a, b - 1, now, p);
            match self.visible_log(b - 1) {
                Some(l) => before.push(self.cut_row(l, b - 1, now, p)),
                None => before,
            }
        }
    }

    /// The row below the last one that fits when lines are cut.
    pub open spec fn cut_end(self) -> int {
        arith::lesser(self.scroll_offset + self.viewport_height, self.visible_count())
    }

    /// The line that the cursor is shown on when lines are cut.
    pub open spec fn cut_cursor_log(self) -> Option<LogView> {
        if self.visual_mode == VisualMode::Off && self.scroll_offset <= self.cursor_row < self.cut_end() {
            self.visible_log(self.cursor_row)
        } else {
            None
        }
    }

    /// The column that the cursor is shown in when lines are cut.
    pub open spec fn cut_cursor_x(self, log: LogView, area: Area) -> int {
        let prefix = log.prefix_len() as int;
        let n = log.content.len() as int;
        let tag = wrap::width_up_to(log.tag(), prefix);
        let c = self.content_cursor(prefix, n);
        if self.h_scroll > 0 && c < self.h_scroll {
            area.x + coordinate(tag)
        } else if self.cursor_col < prefix {
            area.x + coordinate(wrap::width_up_to(log.tag(), self.cursor_col))
        } else {
            let shown = log.content.subrange(arith::lesser(self.h_scroll, c), c);
            let edge: int = if self.h_scroll > 0 && n > 0 {
                1
            } else {
                0
            };
            area.kept_x(area.x + coordinate(tag + edge + wrap::width_up_to(shown, shown.len() as int)))
        }
    }

    // -- Wrapped lines ------------------------------------------------------

    /// The rows of the screen that the line in a row takes up, `room` at most.
    pub open spec fn wrapped_height(self, row: int, room: int) -> int {
        match self.visible_log(row) {
            Some(l) => arith::lesser(room, self.parts(l).len() as int),
            None => 0,
        }
    }

    /// The lines from row `r` on, as far as there is room.
    pub open spec fn wrapped_rows(self, r: int, room: int, now: u64, p: Pens) -> Seq<Seq<Piece>>
        decreases self.visible_count() - r,
    {
        if r >= self.visible_count() || room <= 0 {
            seq![]
        } else {
            let h = self.wrapped_height(r, room);
            let here = match self.visible_log(r) {
                Some(l) => self.part_lines(l, r, h, p, self.marks(l, r, now)),
                None => seq![],
            };
            here + self.wrapped_rows(r + 1, room - h, now, p)
        }
    }

    /// The column that the cursor is shown in, on a part of a wrapped line.
    pub open spec fn wrapped_cursor_x(self, log: LogView, row: int, i: int, area: Area) -> int {
        let prefix = log.prefix_len() as int;
        let part = self.parts(log)[i];
        if i == 0 && self.cursor_col < prefix {
            area.kept_x(area.x + coordinate(self.cursor_col))
        } else {
            let before = wrap::width_up_to(
                part.text,
                arith::less(arith::less(self.cursor_col, prefix), part.start),
            );
            let indent = if self.row_toggled(row) {
                prefix + 2
            } else {
                prefix
            };
            area.kept_x(area.x + coordinate(indent + before))
        }
    }

    /// Where the cursor is shown, on the rows from `r` on with `room` left: its
    /// column and its row on the screen.
    pub open spec fn wrapped_cursor(self, r: int, room: int, area: Area) -> Option<(int, int)>
        decreases self.visible_count() - r,
    {
        if r >= self.visible_count() || room <= 0 {
            None
        } else if self.is_current(r) {
            match self.visible_log(r) {
                Some(l) => {
                    let c = arith::less(self.cursor_col, l.prefix_len() as int);
                    match holder(self.parts(l), c, self.wrapped_height(r, room)) {
                        Some(i) => Some(
                            (self.wrapped_cursor_x(l, r, i, area), area.y + (self.viewport_height - room) + i),
                        ),
                        None => None,
                    }
                },
                None => None,
            }
        } else {
            self.wrapped_cursor(r + 1, room - self.wrapped_height(r, room), area)
        }
    }

    // -- The pane -----------------------------------------------------------

    /// Whether the line in a row can be measured and drawn, and the filter being
    /// typed be tested on it. The tag is drawn of every wrapped line, and needed of
    /// the line that the cursor is on.
    pub open spec fn line_ready(self, row: int, now: u64) -> bool {
        self.visible_log(row) matches Some(l) ==> {
            &&& view::showable(l)
            &&& self.live_filter_ast matches Some(q) ==> q.testable(l, now)
            &&& !self.line_fold || self.is_current(row) ==> l.tag_fits()
        }
    }

    /// Whether the lines from row `r` on can be drawn, as far as there is room.
    pub open spec fn wrapped_ready(self, r: int, room: int, now: u64) -> bool
        decreases self.visible_count() - r,
    {
        if r >= self.visible_count() || room <= 0 {
            true
        } else {
            self.line_ready(r, now) && self.wrapped_ready(r + 1, room - self.wrapped_height(r, room), now)
        }
    }

    /// Whether the lines on the pane can be drawn.
    pub open spec fn pane_ready(self, now: u64) -> bool {
        if self.line_fold {
            forall|r: int| self.scroll_offset <= r < self.cut_end() ==> #[trigger] self.line_ready(r, now)
        } else {
            self.wrapped_ready(self.scroll_offset, self.viewport_height, now)
        }
    }

    /// The lines on the pane.
    pub open spec fn pane_lines(self, now: u64, p: Pens) -> Seq<Seq<Piece>> {
        if self.line_fold {
            self.cut_rows(self.scroll_offset, self.cut_end(), now, p)
        } else {
            self.wrapped_rows(self.scroll_offset, self.viewport_height, now, p)
        }
    }

    /// The cursor on the pane, where it is shown there.
    pub open spec fn pane_cursor(self, area: Area) -> Option<(u16, u16)> {
        if self.prompt_mode != PromptMode::Off || self.show_service_menu {
            None
        } else if self.line_fold {
            match self.cut_cursor_log() {
                Some(l) => area.place(
                    self.cut_cursor_x(l, area),
                    area.y + (self.cursor_row - self.scroll_offset),
                ),
                None => None,
            }
        } else {
            match self.wrapped_cursor(self.scroll_offset, self.viewport_height, area) {
                Some((x, y)) => area.place(x, y),
                None => None,
            }
        }
    }
}

impl AppState {
    /// How the line of `log` stands in a row.
    fn marks_of(&self, log: &LogItem, row: usize, now: u64) -> (r: Marks)
        requires
            self@.live_filter_ast matches Some(q) ==> q.testable(log@, now),
        ensures
            r == self@.marks(log@, row as int, now),
    {
        let dimmed = match &self.live_filter_ast {
            Some(q) => !q.matches(log, now),
            None => false,
        };
        Marks {
            current: self.visual_mode == VisualMode::Off && row == self.cursor_row,
            toggled: self.is_row_toggled(row),
            dimmed,
        }
    }

    /// The line in a row, filled up if the cursor is on it.
    fn draw_cut_row(&self, log: &LogItem, row: usize, now: u64, p: &Pens) -> (r: Vec<Span>)
        requires
            self@.visible_log(row as int) == Some(log@),
            self@.line_ready(row as int, now),
        ensures
            span::spans_view(r@) == self@.cut_row(log@, row as int, now, *p),
    {
        let m = self.marks_of(log, row, now);
        let mut line = self.build_styled_log_spans(log, row, p, &m);
        if m.current {
            pad(&mut line, self.viewport_width, p.active);
        }
        line
    }

    /// The lines that fit when lines are cut.
    fn draw_cut(&self, now: u64, p: &Pens) -> (r: Vec<Vec<Span>>)
        requires
            self@.line_fold,
            self@.pane_ready(now),
        ensures
            span::lines_view(r@) == self@.cut_rows(self@.scroll_offset, self@.cut_end(), now, *p),
    {
        let end: usize = sum_up_to(self.scroll_offset, self.viewport_height, self.visible_count());
        let mut lines: Vec<Vec<Span>> = Vec::new();
        assert(span::lines_view(lines@) =~= seq![]);
        if self.scroll_offset >= end {
            return lines;
        }
        let mut row: usize = self.scroll_offset;
        while row < end
            invariant
                self.scroll_offset <= row <= end,
                end == self@.cut_end(),
                self@.line_fold,
                self@.pane_ready(now),
                span::lines_view(lines@) == self@.cut_rows(self@.scroll_offset, row as int, now, *p),
            decreases end - row,
        {
            assert(self@.line_ready(row as int, now));
            match self.get_visible_log(row) {
                Some(log) => {
                    let line = self.draw_cut_row(log, row, now, p);
                    put_line(&mut lines, line);
                },
                None => {},
            }
            row += 1;
        }
        lines
    }

    /// The column that the cursor is shown in when lines are cut.
    fn cut_x(&self, log: &LogItem, area: &Area) -> (r: u128)
        requires
            view::showable(log@),
            log@.tag_fits(),
        ensures
            r == self@.cut_cursor_x(log@, *area),
    {
        let prefix: usize = log.prefix_len();
        let tag = log.tag_text();
        let content = chars_of(log.content.as_str());
        let n: usize = content.len();
        let tag_width: usize = str_display_width_up_to(tag.as_str(), prefix);
        let c: usize = min_of(self.cursor_col.saturating_sub(prefix), n);
        if self.h_scroll > 0 && c < self.h_scroll {
            area.x as u128 + (tag_width % 65536) as u128
        } else if self.cursor_col < prefix {
            area.x as u128 + (str_display_width_up_to(tag.as_str(), self.cursor_col) % 65536) as u128
        } else {
            let part = slice_subrange(content.as_slice(), min_of(self.h_scroll, c), c);
            let shown = string_of(part);
            let edge: u128 = if self.h_scroll > 0 && n > 0 {
                1
            } else {
                0
            };
            let width: usize = str_display_width_up_to(shown.as_str(), part.len());
            assert(shown@ == log@.content.subrange(arith::lesser(self@.h_scroll, c as int), c as int));
            let total: u128 = (tag_width as u128 + edge + width as u128) % 65536;
            area.keep_x(area.x as u128 + total) as u128
        }
    }
}

/// The last of the first `n` parts that holds the place `c`.
fn find_holder(chunks: &Vec<VisualChunk>, c: usize, n: usize) -> (r: Option<usize>)
    requires
        n <= chunks@.len(),
        forall|j: int| 0 <= j < chunks@.len() ==> (#[trigger] chunks@[j]).content_char_start + chunks@[j].text@.len()
            <= usize::MAX,
    ensures
        r is Some == holder(wrap::chunks_view(chunks@), c as int, n as int) is Some,
        r matches Some(i) ==> holder(wrap::chunks_view(chunks@), c as int, n as int) == Some(i as int) && i < n,
{
    let ghost parts = wrap::chunks_view(chunks@);
    let mut k: usize = n;
    while k > 0
        invariant
            k <= n <= chunks@.len(),
            parts == wrap::chunks_view(chunks@),
            forall|j: int| 0 <= j < chunks@.len() ==> (#[trigger] chunks@[j]).content_char_start
                + chunks@[j].text@.len() <= usize::MAX,
            holder(parts, c as int, n as int) == holder(parts, c as int, k as int),
        decreases k,
    {
        let chunk = &chunks[k - 1];
        assert(parts[k - 1] == chunk@);
        if chunk.content_char_start <= c && (c < chunk.content_char_start + chunk.text.as_str().unicode_len() || k
            == chunks.len()) {
            return Some(k - 1);
        }
        k -= 1;
    }
    None
}

impl AppState {
    /// The parts of a line.
    fn parts_of(&self, log: &LogItem) -> (r: Vec<VisualChunk>)
        requires
            view::showable(log@),
        ensures
            wrap::chunks_view(r@) == self@.parts(log@),
            forall|j: int| 0 <= j < r@.len() ==> (#[trigger] r@[j]).content_char_start + r@[j].text@.len()
                <= usize::MAX,
    {
        let width: usize = get_unfolded_content_width(self.viewport_width, log.prefix_len());
        let r = get_log_visual_chunks(log.content.as_str(), width);
        proof {
            state::lemma_showable(log@);
            wrap::law_chunks_inside(log@.content, self@.wrap_width(log@));
            assert forall|j: int| 0 <= j < r@.len() implies (#[trigger] r@[j]).content_char_start + r@[j].text@.len()
                <= usize::MAX by {
                assert(self@.parts(log@)[j] == r@[j]@);
            }
        }
        r
    }

    /// The column that the cursor is shown in, on a part of a wrapped line.
    fn wrapped_x(&self, log: &LogItem, row: usize, part: &VisualChunk, i: usize, area: &Area) -> (r: u16)
        requires
            view::showable(log@),
            i < self@.parts(log@).len(),
            part@ == self@.parts(log@)[i as int],
        ensures
            r == self@.wrapped_cursor_x(log@, row as int, i as int, *area),
    {
        let prefix: usize = log.prefix_len();
        if i == 0 && self.cursor_col < prefix {
            area.keep_x(area.x as u128 + (self.cursor_col % 65536) as u128)
        } else {
            let behind: usize = self.cursor_col.saturating_sub(prefix).saturating_sub(part.content_char_start);
            let before: usize = str_display_width_up_to(part.text.as_str(), behind);
            let mark: u128 = if self.is_row_toggled(row) {
                2
            } else {
                0
            };
            area.keep_x(area.x as u128 + (prefix as u128 + mark + before as u128) % 65536)
        }
    }

    /// Where the cursor is shown on the line of `log`, of which `shown` parts fit,
    /// the first of them `used` rows below the top.
    fn wrapped_cursor_on(&self, log: &LogItem, row: usize, shown: usize, used: usize, area: &Area) -> (r: Option<
        (u16, u128),
    >)
        requires
            view::showable(log@),
            shown <= self@.parts(log@).len(),
        ensures
            r is Some == holder(
                self@.parts(log@),
                arith::less(self@.cursor_col, log@.prefix_len() as int),
                shown as int,
            ) is Some,
            r matches Some((x, y)) ==> {
                let i = holder(
                    self@.parts(log@),
                    arith::less(self@.cursor_col, log@.prefix_len() as int),
                    shown as int,
                )->0;
                x == self@.wrapped_cursor_x(log@, row as int, i, *area) && y == area.y + used + i
            },
    {
        let chunks = self.parts_of(log);
        let c: usize = self.cursor_col.saturating_sub(log.prefix_len());
        match find_holder(&chunks, c, shown) {
            Some(i) => {
                assert(self@.parts(log@)[i as int] == chunks@[i as int]@);
                Some((self.wrapped_x(log, row, &chunks[i], i, area), area.y as u128 + used as u128 + i as u128))
            },
            None => None,
        }
    }

    /// The rows of the screen that the line in a row takes up, `room` at most.
    fn height_in(&self, row: usize, room: usize) -> (r: usize)
        requires
            self@.fits_at(row as int),
        ensures
            r == self@.wrapped_height(row as int, room as int),
            r <= room,
    {
        match self.get_visible_log(row) {
            Some(log) => min_of(room, self.parts_of(log).len()),
            None => 0,
        }
    }

    /// The lines that fit when lines are wrapped.
    fn draw_wrapped(&self, now: u64, p: &Pens) -> (r: Vec<Vec<Span>>)
        requires
            !self@.line_fold,
            self@.wrapped_ready(self@.scroll_offset, self@.viewport_height, now),
        ensures
            span::lines_view(r@) == self@.wrapped_rows(self@.scroll_offset, self@.viewport_height, now, *p),
    {
        let mut lines: Vec<Vec<Span>> = Vec::new();
        let mut row: usize = self.scroll_offset;
        let mut room: usize = self.viewport_height;
        let count: usize = self.visible_count();
        let ghost all = self@.wrapped_rows(self@.scroll_offset, self@.viewport_height, now, *p);
        assert(span::lines_view(lines@) + all =~= all);
        while row < count && room > 0
            invariant
                count == self@.visible_count(),
                !self@.line_fold,
                self@.wrapped_ready(row as int, room as int, now),
                all == span::lines_view(lines@) + self@.wrapped_rows(row as int, room as int, now, *p),
            decreases count - row,
        {
            let ghost was = span::lines_view(lines@);
            let height: usize = self.height_in(row, room);
            let ghost tail = self@.wrapped_rows(row + 1, room - height, now, *p);
            match self.get_visible_log(row) {
                Some(log) => {
                    let m = self.marks_of(log, row, now);
                    self.draw_parts(&mut lines, log, row, room, p, &m);
                    let ghost here = self@.part_lines(log@, row as int, height as int, *p, m);
                    assert(was + (here + tail) =~= (was + here) + tail);
                },
                None => {
                    assert(was + (Seq::<Seq<Piece>>::empty() + tail) =~= was + tail);
                },
            }
            room -= height;
            row += 1;
        }
        assert(span::lines_view(lines@) + Seq::<Seq<Piece>>::empty() =~= span::lines_view(lines@));
        lines
    }

    /// Where the cursor is shown when lines are wrapped: its column and its row on the screen.
    fn find_wrapped_cursor(&self, area: &Area, now: u64) -> (r: Option<(u16, u128)>)
        requires
            self@.wrapped_ready(self@.scroll_offset, self@.viewport_height, now),
        ensures
            r is Some == self@.wrapped_cursor(self@.scroll_offset, self@.viewport_height, *area) is Some,
            r matches Some((x, y)) ==> self@.wrapped_cursor(self@.scroll_offset, self@.viewport_height, *area)
                == Some((x as int, y as int)),
    {
        let mut row: usize = self.scroll_offset;
        let mut room: usize = self.viewport_height;
        let count: usize = self.visible_count();
        while row < count && room > 0
            invariant
                count == self@.visible_count(),
                self@.wrapped_ready(row as int, room as int, now),
                room <= self.viewport_height,
                self@.wrapped_cursor(self@.scroll_offset, self@.viewport_height, *area) == self@.wrapped_cursor(
                    row as int,
                    room as int,
                    *area,
                ),
            decreases count - row,
        {
            let height: usize = self.height_in(row, room);
            if self.visual_mode == VisualMode::Off && row == self.cursor_row {
                return match self.get_visible_log(row) {
                    Some(log) => self.wrapped_cursor_on(log, row, height, self.viewport_height - room, area),
                    None => None,
                };
            }
            room -= height;
            row += 1;
        }
        None
    }

    /// Whether the line in a row can be drawn.
    fn can_draw_line(&self, row: usize, now: u64) -> (r: bool)
        ensures
            r == self@.line_ready(row as int, now),
    {
        match self.get_visible_log(row) {
            Some(log) => {
                let current: bool = self.visual_mode == VisualMode::Off && row == self.cursor_row;
                if !item_showable(log) {
                    return false;
                }
                if (!self.line_fold || current) && !can_truncate(log.service.as_str(), 16) {
                    return false;
                }
                match &self.live_filter_ast {
                    Some(q) => q.try_matches(log, now).is_some(),
                    None => true,
                }
            },
            None => true,
        }
    }

    /// Whether the lines can be drawn that there is room for when lines are wrapped.
    fn can_wrap(&self, now: u64) -> (r: bool)
        ensures
            r == self@.wrapped_ready(self@.scroll_offset, self@.viewport_height, now),
    {
        let mut row: usize = self.scroll_offset;
        let mut room: usize = self.viewport_height;
        let count: usize = self.visible_count();
        while row < count && room > 0
            invariant
                count == self@.visible_count(),
                self@.wrapped_ready(self@.scroll_offset, self@.viewport_height, now) == self@.wrapped_ready(
                    row as int,
                    room as int,
                    now,
                ),
            decreases count - row,
        {
            if !self.can_draw_line(row, now) {
                return false;
            }
            room -= self.height_in(row, room);
            row += 1;
        }
        true
    }

    /// Whether the lines can be drawn that there is room for when lines are cut.
    fn can_cut(&self, now: u64) -> (r: bool)
        ensures
            r == forall|r: int|
                self@.scroll_offset <= r < self@.cut_end() ==> #[trigger] self@.line_ready(r, now),
    {
        let end: usize = sum_up_to(self.scroll_offset, self.viewport_height, self.visible_count());
        let mut row: usize = self.scroll_offset;
        while row < end
            invariant
                self@.scroll_offset <= row,
                end == self@.cut_end(),
                forall|r: int| self@.scroll_offset <= r < row ==> #[trigger] self@.line_ready(r, now),
            decreases end - row,
        {
            if !self.can_draw_line(row, now) {
                assert(!self@.line_ready(row as int, now));
                return false;
            }
            row += 1;
        }
        true
    }

    /// The line that the cursor is shown on when lines are cut.
    fn find_cut_cursor_log(&self) -> (r: Option<&LogItem>)
        ensures
            r is Some == self@.cut_cursor_log() is Some,
            r matches Some(l) ==> self@.cut_cursor_log() == Some(l@),
    {
        let end: usize = sum_up_to(self.scroll_offset, self.viewport_height, self.visible_count());
        if self.visual_mode == VisualMode::Off && self.scroll_offset <= self.cursor_row && self.cursor_row < end {
            self.get_visible_log(self.cursor_row)
        } else {
            None
        }
    }

    /// Whether the lines on the pane can be drawn.
    pub fn can_draw_pane(&self, now: u64) -> (r: bool)
        ensures
            r == self@.pane_ready(now),
    {
        if self.line_fold {
            self.can_cut(now)
        } else {
            self.can_wrap(now)
        }
    }

    /// Gives the pane its size.
    pub fn set_viewport(&mut self, area: &Area)
        ensures
            final(self)@ == old(self)@.sized(*area),
    {
        self.viewport_height = area.height as usize;
        self.viewport_width = area.width as usize;
    }

    /// The cursor on the pane, where it is shown there.
    fn find_pane_cursor(&self, area: &Area, now: u64) -> (r: Option<(u16, u16)>)
        requires
            self@.pane_ready(now),
        ensures
            r == self@.pane_cursor(*area),
    {
        if self.prompt_mode != PromptMode::Off || self.show_service_menu {
            None
        } else if self.line_fold {
            assert(self@.cut_cursor_log() is Some ==> self@.line_ready(self@.cursor_row, now));
            match self.find_cut_cursor_log() {
                Some(log) => area.place_at(
                    self.cut_x(log, area),
                    area.y as u128 + (self.cursor_row - self.scroll_offset) as u128,
                ),
                None => None,
            }
        } else {
            match self.find_wrapped_cursor(area, now) {
                Some((x, y)) => area.place_at(x as u128, y),
                None => None,
            }
        }
    }

    /// What stands on the pane, with ages counted from `now`.
    pub fn draw_pane(&self, area: &Area, p: &Pens, now: u64) -> (r: Pane)
        requires
            self@.pane_ready(now),
        ensures
            span::lines_view(r.lines@) == self@.pane_lines(now, *p),
            r.cursor == self@.pane_cursor(*area),
    {
        let lines = if self.line_fold {
            self.draw_cut(now, p)
        } else {
            self.draw_wrapped(now, p)
        };
        Pane { lines, cursor: self.find_pane_cursor(area, now) }
    }

    /// Gives the pane its size and draws it; `is_dark` is whether the terminal's
    /// background is dark. Nothing is drawn where a line cannot be.
    pub fn render_logs(&mut self, area: &Area, theme: &UiTheme, color_mode: &TerminalColorMode, is_dark: bool) -> (r:
        Option<Pane>)
        ensures
            final(self)@ == old(self)@.sized(*area),
            r matches Some(pane) ==> pane.cursor == final(self)@.pane_cursor(*area),
            exists|now: u64|
                {
                    &&& old(self)@.times_fit() ==> old(self)@.may_be_now(now)
                    &&& r is Some == (old(self)@.times_fit() && final(self)@.pane_ready(now))
                    &&& r matches Some(pane) ==> span::lines_view(pane.lines@) == #[trigger] final(self)@.pane_lines(
                        now,
                        pens(*theme, *color_mode, is_dark),
                    )
                },
    {
        self.set_viewport(area);
        let p = Pens {
            theme: *theme,
            sel: compute_neutral_selection_style(color_mode, is_dark),
            active: compute_neutral_active_line_style(color_mode, is_dark),
        };
        if !self.can_tell_time() {
            let ghost any = self@.pane_lines(0, p);
            return None;
        }
        let now: u64 = self.reference_timestamp_secs();
        let ghost lines = self@.pane_lines(now, p);
        if !self.can_draw_pane(now) {
            return None;
        }
        Some(self.draw_pane(area, &p, now))
    }
}

} // verus!
