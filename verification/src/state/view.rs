//! What the viewer's state holds, and what each operation makes of it.

use crate::arith;
use crate::logitem::LogView;
use crate::query::{self, pipeline, QueryView};
use crate::service::{self, ServiceView};
use crate::text::{self, Class};
use crate::wrap;
use vstd::prelude::*;

verus! {

/// How text is selected.
#[derive(Debug, Clone, Copy, PartialEq, Eq, Structural)]
pub enum VisualMode {
    Off,
    Character,
    Line,
    Block,
}

/// What is being typed.
#[derive(Debug, Clone, Copy, PartialEq, Eq, Structural)]
pub enum PromptMode {
    Off,
    Filter,
}

/// What the viewer's state holds.
#[verifier::ext_equal]
pub struct StateView {
    pub logs: Seq<LogView>,
    pub max_capacity: int,
    pub scroll_offset: int,
    pub scrolloff: int,
    pub cursor_row: int,
    pub cursor_col: int,
    pub viewport_height: int,
    pub viewport_width: int,
    pub h_scroll: int,
    pub h_scrolloff: int,
    pub line_fold: bool,
    pub visual_mode: VisualMode,
    pub visual_anchor: Option<(usize, usize)>,
    pub is_mouse_dragging: bool,
    pub last_mouse_pos: Option<(u16, u16)>,
    pub toggled_lines: Set<usize>,
    pub sticky: bool,
    pub show_service_menu: bool,
    pub show_service_search: bool,
    pub service_options: Seq<ServiceView>,
    pub service_menu_selected_idx: int,
    pub service_menu_scroll: int,
    pub service_search_query: Seq<char>,
    pub prompt_mode: PromptMode,
    pub input_buffer: Seq<char>,
    pub filter_cursor_col: int,
    pub filter_ast: Option<QueryView>,
    pub active_filter_str: Option<Seq<char>>,
    pub live_filter_ast: Option<QueryView>,
    pub visible_indices: Seq<usize>,
    pub synthetic_logs: Option<Seq<LogView>>,
    pub clipboard_notice: Option<Seq<char>>,
    pub status_message: Option<Seq<char>>,
}

/// Whether a line can be measured: its tag can be cut, and its length is a machine number.
pub open spec fn showable(log: LogView) -> bool {
    &&& log.is_system || log.tag_fits()
    &&& log.full_line().len() < usize::MAX
}

pub open spec fn all_showable(logs: Seq<LogView>) -> bool {
    forall|i: int| 0 <= i < logs.len() ==> showable(#[trigger] logs[i])
}

/// The longest content among the first `n` lines.
pub open spec fn longest_content(logs: Seq<LogView>, n: int) -> int
    decreases n,
{
    if !(0 < n <= logs.len()) {
        0
    } else {
        arith::greater(longest_content(logs, n - 1), logs[n - 1].content.len() as int)
    }
}

/// The longest full line among the first `n` lines.
pub open spec fn longest_line(logs: Seq<LogView>, n: int) -> int
    decreases n,
{
    if !(0 < n <= logs.len()) {
        0
    } else {
        arith::greater(longest_line(logs, n - 1), logs[n - 1].full_line().len() as int)
    }
}

/// The point in time of the last of the first `n` lines that has one.
pub open spec fn latest_time(logs: Seq<LogView>, n: int) -> Option<int>
    decreases n,
{
    if !(0 < n <= logs.len()) {
        None
    } else {
        match pipeline::log_secs(logs[n - 1]) {
            Some(t) => Some(t),
            None => latest_time(logs, n - 1),
        }
    }
}

/// Where a line with the date `ts` goes among the first `n` lines: behind the
/// last line with a date that is not later.
pub open spec fn place_for(logs: Seq<LogView>, ts: Seq<char>, n: int) -> int
    decreases n,
{
    if !(0 < n <= logs.len()) {
        n
    } else if logs[n - 1].timestamp is Some && text::lex_le(logs[n - 1].timestamp->0, ts) {
        n
    } else {
        place_for(logs, ts, n - 1)
    }
}

/// How many of the numbers are below `x`.
pub open spec fn rank(v: Seq<usize>, x: usize) -> int
    decreases v.len(),
{
    if v.len() == 0 {
        0
    } else {
        rank(v.drop_last(), x) + (if v.last() < x {
            1int
        } else {
            0int
        })
    }
}

/// The lines, one below the other.
pub open spec fn stacked(lines: Seq<Seq<char>>) -> Seq<char>
    decreases lines.len(),
{
    if lines.len() == 0 {
        seq![]
    } else if lines.len() == 1 {
        lines[0]
    } else {
        stacked(lines.drop_last()) + seq!['\n'] + lines.last()
    }
}

/// The characters of `s` from `a` up to and with `b`, as far as there are any.
pub open spec fn span(s: Seq<char>, a: int, b: int) -> Seq<char> {
    let from = arith::lesser(a, s.len() as int);
    let to = arith::lesser(b + 1, s.len() as int);
    if from < to {
        s.subrange(from, to)
    } else {
        seq![]
    }
}

/// The place where the next word begins.
pub open spec fn next_word(s: Seq<char>, i: int) -> int {
    if Class::Space.has(s[i]) {
        text::run_end(s, i, Class::Space)
    } else if Class::Word.has(s[i]) {
        text::run_end(s, text::run_end(s, i, Class::Word), Class::Space)
    } else {
        text::run_end(s, text::run_end(s, i, Class::Punct), Class::Space)
    }
}

/// The place where the word at or before `i` begins.
pub open spec fn word_start(s: Seq<char>, i: int) -> int {
    let k = arith::less(text::run_start(s, i + 1, Class::Space), 1);
    if Class::Word.has(s[k]) {
        text::run_start(s, k, Class::Word)
    } else if !Class::Space.has(s[k]) {
        text::run_start(s, k, Class::Punct)
    } else {
        k
    }
}

/// The place where the word at or behind `i` ends, if there is one.
pub open spec fn word_stop(s: Seq<char>, i: int) -> Option<int> {
    let k = text::run_end(s, i, Class::Space);
    if k >= s.len() {
        None
    } else if Class::Word.has(s[k]) {
        Some(text::run_end(s, k + 1, Class::Word) - 1)
    } else {
        Some(text::run_end(s, k + 1, Class::Punct) - 1)
    }
}

impl StateView {
    pub open spec fn initial(capacity: int) -> StateView {
        StateView {
            logs: seq![],
            max_capacity: capacity,
            scroll_offset: 0,
            scrolloff: 6,
            cursor_row: 0,
            cursor_col: 0,
            viewport_height: 1,
            viewport_width: 1,
            h_scroll: 0,
            h_scrolloff: 2,
            line_fold: true,
            visual_mode: VisualMode::Off,
            visual_anchor: None,
            is_mouse_dragging: false,
            last_mouse_pos: None,
            toggled_lines: Set::empty(),
            sticky: true,
            show_service_menu: false,
            show_service_search: false,
            service_options: seq![],
            service_menu_selected_idx: 0,
            service_menu_scroll: 0,
            service_search_query: seq![],
            prompt_mode: PromptMode::Off,
            input_buffer: seq![],
            filter_cursor_col: 0,
            filter_ast: None,
            active_filter_str: None,
            live_filter_ast: None,
            visible_indices: seq![],
            synthetic_logs: None,
            clipboard_notice: None,
            status_message: None,
        }
    }

    // -- What is visible ----------------------------------------------------

    pub open spec fn visible_count(self) -> int {
        match self.synthetic_logs {
            Some(s) => s.len() as int,
            None => self.visible_indices.len() as int,
        }
    }

    /// The line in a visible row.
    pub open spec fn visible_log(self, row: int) -> Option<LogView> {
        match self.synthetic_logs {
            Some(s) => if 0 <= row < s.len() {
                Some(s[row])
            } else {
                None
            },
            None => if 0 <= row < self.visible_indices.len() && self.visible_indices[row] < self.logs.len() {
                Some(self.logs[self.visible_indices[row] as int])
            } else {
                None
            },
        }
    }

    /// Whether the line in a visible row is marked.
    pub open spec fn row_toggled(self, row: int) -> bool {
        0 <= row < self.visible_indices.len() && self.toggled_lines.contains(self.visible_indices[row])
    }

    pub open spec fn prefix_at(self, row: int) -> int {
        match self.visible_log(row) {
            Some(l) => l.prefix_len() as int,
            None => 0,
        }
    }

    /// The cells for content beside the prefix in a wrapped line.
    pub open spec fn wrap_width(self, log: LogView) -> int {
        wrap::content_width(self.viewport_width, log.prefix_len() as int)
    }

    /// The rows of the screen that a visible row takes up when lines are wrapped.
    pub open spec fn height_of(self, row: int) -> int {
        match self.visible_log(row) {
            Some(l) => wrap::visual_lines(l.content, self.wrap_width(l)),
            None => 0,
        }
    }

    /// The rows of the screen that the visible rows from `a` to before `b` take up.
    pub open spec fn height_between(self, a: int, b: int) -> int
        decreases b - a,
    {
        if a >= b {
            0
        } else {
            self.height_between(a, b - 1) + self.height_of(b - 1)
        }
    }

    // -- Columns ------------------------------------------------------------

    pub open spec fn line_len(self) -> int {
        match self.visible_log(self.cursor_row) {
            Some(l) => l.full_line().len() as int,
            None => 0,
        }
    }

    /// The last column of the current line.
    pub open spec fn end_col(self) -> int {
        match self.visible_log(self.cursor_row) {
            Some(l) => l.prefix_len() + arith::less(l.content.len() as int, 1),
            None => 0,
        }
    }

    pub open spec fn window_width(self) -> int {
        arith::greater(arith::less(arith::less(self.viewport_width, self.prefix_at(self.cursor_row)), 2), 1)
    }

    pub open spec fn max_content(self) -> int {
        longest_content(self.logs, self.logs.len() as int)
    }

    pub open spec fn max_line(self) -> int {
        arith::greater(longest_line(self.logs, self.logs.len() as int), self.viewport_width * 3)
    }

    /// The state with the cursor no further right than the line reaches.
    pub open spec fn col_clamped(self) -> StateView {
        StateView { cursor_col: arith::lesser(self.cursor_col, self.end_col()), ..self }
    }

    /// The horizontal scroll that keeps the cursor in the window, with a margin.
    #[verifier::opaque]
    pub open spec fn h_adjusted(self) -> StateView {
        let prefix = self.prefix_at(self.cursor_row);
        let avail = arith::less(self.viewport_width, prefix);
        if avail <= 2 {
            self
        } else {
            let window = avail - 2;
            let col = arith::less(self.cursor_col, prefix);
            let margin = arith::lesser(self.h_scrolloff, (window - 1) / 2);
            let left = if col < self.h_scroll + margin {
                arith::less(col, margin)
            } else {
                self.h_scroll
            };
            let right = if col + margin >= left + window {
                arith::less(col + margin + 1, window)
            } else {
                left
            };
            StateView { h_scroll: arith::lesser(right, arith::less(self.max_content(), window)), ..self }
        }
    }

    pub open spec fn h_adjusted_if_folded(self) -> StateView {
        if self.line_fold {
            self.h_adjusted()
        } else {
            self
        }
    }

    // -- Rows ---------------------------------------------------------------

    /// The first row to show so that the rows up to the cursor fit on the
    /// screen, where those from `off` on take up `total` rows of it.
    pub open spec fn forward_from(self, off: int, total: int) -> int
        decreases self.cursor_row - off,
    {
        if off < self.cursor_row && total > self.viewport_height {
            self.forward_from(off + 1, arith::less(total, self.height_of(off)))
        } else {
            off
        }
    }

    /// The vertical scroll that keeps the cursor on the screen: with a margin
    /// where lines are cut, by the height of the lines where they are wrapped.
    #[verifier::opaque]
    pub open spec fn v_adjusted(self) -> StateView {
        let count = self.visible_count();
        if self.viewport_height == 0 || count == 0 {
            self
        } else if self.line_fold {
            let so = arith::lesser(self.scrolloff, (self.viewport_height - 1) / 2);
            let up = if self.cursor_row < self.scroll_offset + so {
                arith::less(self.cursor_row, so)
            } else {
                self.scroll_offset
            };
            let down = if self.cursor_row + so >= up + self.viewport_height {
                arith::less(self.cursor_row + so + 1, self.viewport_height)
            } else {
                up
            };
            StateView { scroll_offset: arith::lesser(down, arith::less(count, self.viewport_height)), ..self }
        } else if self.cursor_row < self.scroll_offset {
            StateView { scroll_offset: self.cursor_row, ..self }
        } else {
            StateView {
                scroll_offset: self.forward_from(
                    self.scroll_offset,
                    self.height_between(self.scroll_offset, self.cursor_row + 1),
                ),
                ..self
            }
        }
    }

    pub open spec fn moved_down(self, amount: int) -> StateView {
        let count = self.visible_count();
        if count == 0 {
            self
        } else {
            (StateView { cursor_row: arith::lesser(self.cursor_row + amount, count - 1), ..self }).v_adjusted().col_clamped()
        }
    }

    pub open spec fn moved_up(self, amount: int) -> StateView {
        (StateView { cursor_row: arith::less(self.cursor_row, amount), ..self }).v_adjusted().col_clamped()
    }

    pub open spec fn moved_left(self, amount: int) -> StateView {
        if self.cursor_col > 0 {
            (StateView { cursor_col: arith::less(self.cursor_col, amount), ..self }).h_adjusted_if_folded()
        } else if self.h_scroll > 0 && self.line_fold {
            StateView { h_scroll: arith::less(self.h_scroll, amount), ..self }
        } else {
            self
        }
    }

    pub open spec fn moved_right(self, amount: int) -> StateView {
        let end = self.end_col();
        if self.cursor_col < end {
            (StateView { cursor_col: arith::lesser(self.cursor_col + amount, end), ..self }).h_adjusted_if_folded()
        } else if self.line_fold {
            StateView {
                h_scroll: arith::lesser(
                    self.h_scroll + amount,
                    arith::less(self.max_content(), self.window_width()),
                ),
                ..self
            }
        } else {
            self
        }
    }

    pub open spec fn moved_to_col(self, col: int) -> StateView {
        (StateView { cursor_col: col, ..self }).h_adjusted_if_folded()
    }

    pub open spec fn moved_word_forward(self) -> StateView {
        match self.visible_log(self.cursor_row) {
            None => self,
            Some(l) => {
                let s = l.full_line();
                if self.cursor_col >= s.len() - 1 {
                    self
                } else {
                    self.moved_to_col(arith::lesser(next_word(s, self.cursor_col), s.len() - 1))
                }
            },
        }
    }

    /// Whether the cursor stands on its line or just behind it.
    pub open spec fn cursor_on_line(self) -> bool {
        self.visible_log(self.cursor_row) is Some && self.line_len() > 0 ==> self.cursor_col <= self.line_len()
    }

    pub open spec fn moved_word_backward(self) -> StateView {
        match self.visible_log(self.cursor_row) {
            None => self,
            Some(l) => {
                let s = l.full_line();
                if s.len() == 0 || self.cursor_col == 0 {
                    self
                } else {
                    self.moved_to_col(word_start(s, self.cursor_col - 1))
                }
            },
        }
    }

    pub open spec fn moved_word_end(self) -> StateView {
        match self.visible_log(self.cursor_row) {
            None => self,
            Some(l) => {
                let s = l.full_line();
                if self.cursor_col >= s.len() - 1 {
                    self
                } else {
                    match word_stop(s, self.cursor_col + 1) {
                        Some(k) => self.moved_to_col(k),
                        None => self,
                    }
                }
            },
        }
    }

    pub open spec fn moved_to_top(self) -> StateView {
        (StateView { cursor_row: 0, ..self }).col_clamped().v_adjusted()
    }

    pub open spec fn moved_to_bottom(self) -> StateView {
        let count = self.visible_count();
        if count > 0 {
            (StateView { cursor_row: count - 1, ..self }).col_clamped().v_adjusted()
        } else {
            self
        }
    }

    // -- Wrapping -----------------------------------------------------------

    /// How far below the top of the screen the cursor stands.
    pub open spec fn cursor_screen_row(self) -> int {
        arith::lesser(
            if self.line_fold {
                arith::less(self.cursor_row, self.scroll_offset)
            } else {
                self.height_between(self.scroll_offset, self.cursor_row)
            },
            arith::less(self.viewport_height, 1),
        )
    }

    /// The first row to show so that at most `room` rows of the screen stand above row `off`.
    pub open spec fn back_from(self, off: int, room: int) -> int
        decreases off,
    {
        if off > 0 && room > 0 && self.visible_log(off - 1) is Some && room >= self.height_of(off - 1) {
            self.back_from(off - 1, room - self.height_of(off - 1))
        } else {
            off
        }
    }

    #[verifier::opaque]
    pub open spec fn fold_toggled(self) -> StateView {
        let flipped = StateView { line_fold: !self.line_fold, ..self };
        if self.visible_count() == 0 {
            flipped
        } else {
            let y = self.cursor_screen_row();
            if flipped.line_fold {
                (StateView { scroll_offset: arith::less(self.cursor_row, y), ..flipped }).h_adjusted()
            } else {
                StateView { h_scroll: 0, scroll_offset: flipped.back_from(self.cursor_row, y), ..flipped }
            }
        }
    }

    // -- The screen ---------------------------------------------------------

    /// The row and the part of it that stand in row `y` of the screen, looking
    /// from visible row `r` on, `y` rows of the screen further down.
    pub open spec fn part_at(self, r: int, y: int) -> Option<(int, int)>
        decreases self.visible_count() - r,
    {
        if !(0 <= r < self.visible_count()) {
            None
        } else {
            match self.visible_log(r) {
                None => self.part_at(r + 1, y),
                Some(l) => {
                    let n = wrap::chunks_of(l.content, self.wrap_width(l)).len();
                    if y < n {
                        Some((r, y))
                    } else {
                        self.part_at(r + 1, y - n)
                    }
                },
            }
        }
    }

    /// The last row from `r` on that holds a line, or `otherwise`.
    pub open spec fn last_row(self, r: int, otherwise: int) -> int
        decreases self.visible_count() - r,
    {
        if !(0 <= r < self.visible_count()) {
            otherwise
        } else {
            self.last_row(
                r + 1,
                if self.visible_log(r) is Some {
                    r
                } else {
                    otherwise
                },
            )
        }
    }

    /// The row under row `y` of the screen where lines are cut.
    pub open spec fn folded_row(self, y: int) -> int {
        arith::lesser(self.scroll_offset + y, arith::less(self.visible_count(), 1))
    }

    pub open spec fn mark_width(self, row: int) -> int {
        if self.row_toggled(row) {
            2
        } else {
            0
        }
    }

    #[verifier::opaque]
    pub open spec fn on_tag(self, x: int, y: int) -> bool {
        if self.visible_count() == 0 {
            false
        } else if self.line_fold {
            let row = self.folded_row(y);
            match self.visible_log(row) {
                Some(l) => !l.is_system && x <= l.prefix_len() + self.mark_width(row),
                None => false,
            }
        } else {
            match self.part_at(self.scroll_offset, y) {
                Some((r, _)) => x <= self.prefix_at(r) + self.mark_width(r),
                None => false,
            }
        }
    }

    /// The column of the line under column `x` of the screen where lines are cut.
    pub open spec fn folded_col(self, l: LogView, x: int) -> int {
        if l.is_system {
            wrap::char_at(l.content, 0, 0, x)
        } else {
            let p_len = l.prefix_len() as int;
            let p_width = wrap::width_up_to(l.tag(), p_len);
            if x <= p_width {
                0
            } else {
                let pad = if self.h_scroll > 0 && l.content.len() > 0 {
                    1int
                } else {
                    0int
                };
                let rest = l.content.skip(arith::lesser(self.h_scroll, l.content.len() as int));
                let off = wrap::char_at(rest, 0, 0, arith::less(x, p_width + pad));
                arith::lesser(p_len + self.h_scroll + off, p_len + l.content.len())
            }
        }
    }

    /// The column of the line under column `x` of the screen in a part of a wrapped line.
    pub open spec fn wrapped_col(self, row: int, part: int, x: int) -> int {
        let l = self.visible_log(row)->0;
        let chunk = wrap::chunks_of(l.content, self.wrap_width(l))[part];
        let left = l.prefix_len() + self.mark_width(row);
        if x <= left {
            0
        } else {
            l.prefix_len() + chunk.start + wrap::char_at(chunk.text, 0, 0, x - left)
        }
    }

    /// The row and column of the text under a cell of the screen.
    #[verifier::opaque]
    pub open spec fn pos_at(self, x: int, y: int) -> (int, int) {
        let count = self.visible_count();
        if count == 0 {
            (0, 0)
        } else if self.line_fold {
            let row = self.folded_row(y);
            match self.visible_log(row) {
                None => (row, 0),
                Some(l) => (row, self.folded_col(l, x)),
            }
        } else {
            match self.part_at(self.scroll_offset, y) {
                Some((r, part)) => (r, self.wrapped_col(r, part, x)),
                None => (self.last_row(self.scroll_offset, arith::lesser(self.scroll_offset, count - 1)), 0),
            }
        }
    }

    /// Whether the edge of the screen under the mouse makes the view scroll.
    pub open spec fn scrolls_at(self, mx: int, my: int) -> bool {
        let h = self.viewport_height % 65536;
        let w = self.viewport_width % 65536;
        my < 5 || my >= arith::less(h, 5) || mx < 5 || mx >= arith::less(w, 5)
    }

    pub open spec fn rows_scrolled(self, my: int) -> StateView {
        let h = self.viewport_height % 65536;
        if my < 5 {
            self.moved_up(
                if my == 0 {
                    2
                } else {
                    1
                },
            )
        } else if my >= arith::less(h, 5) {
            self.moved_down(
                if my >= arith::less(h, 1) {
                    2
                } else {
                    1
                },
            )
        } else {
            self
        }
    }

    pub open spec fn cols_scrolled(self, mx: int) -> StateView {
        let w = self.viewport_width % 65536;
        if mx < 5 {
            self.moved_left(
                if mx == 0 {
                    4
                } else {
                    2
                },
            )
        } else if mx >= arith::less(w, 5) {
            self.moved_right(
                if mx >= arith::less(w, 1) {
                    4
                } else {
                    2
                },
            )
        } else {
            self
        }
    }

    /// Whether a drag at the edge of the screen scrolls now.
    pub open spec fn auto_scrolls(self) -> bool {
        &&& self.is_mouse_dragging
        &&& self.last_mouse_pos is Some
        &&& self.viewport_height % 65536 != 0
        &&& self.viewport_width % 65536 != 0
        &&& self.scrolls_at((self.last_mouse_pos->0).0 as int, (self.last_mouse_pos->0).1 as int)
    }

    pub open spec fn auto_scrolled(self) -> StateView {
        if self.auto_scrolls() {
            let (mx, my) = self.last_mouse_pos->0;
            let s = self.rows_scrolled(my as int).cols_scrolled(mx as int);
            let (r, c) = s.pos_at(mx as int, my as int);
            StateView { cursor_row: r, cursor_col: c, ..s }
        } else {
            self
        }
    }

    // -- Selection ----------------------------------------------------------

    pub open spec fn mode_toggled(self, mode: VisualMode) -> StateView {
        if self.visual_mode == mode {
            StateView { visual_mode: VisualMode::Off, visual_anchor: None, ..self }
        } else {
            StateView {
                visual_mode: mode,
                visual_anchor: Some((self.cursor_row as usize, self.cursor_col as usize)),
                sticky: false,
                ..self
            }
        }
    }

    pub open spec fn mode_left(self) -> StateView {
        StateView {
            visual_mode: VisualMode::Off,
            visual_anchor: None,
            is_mouse_dragging: false,
            last_mouse_pos: None,
            ..self
        }
    }

    pub open spec fn line_toggled(self) -> StateView {
        if 0 <= self.cursor_row < self.visible_indices.len() {
            let idx = self.visible_indices[self.cursor_row];
            StateView {
                toggled_lines: if self.toggled_lines.contains(idx) {
                    self.toggled_lines.remove(idx)
                } else {
                    self.toggled_lines.insert(idx)
                },
                ..self
            }
        } else {
            self
        }
    }

    /// The marked lines among the first `n` lines.
    pub open spec fn marked(self, n: int) -> Seq<Seq<char>>
        decreases n,
    {
        if !(0 < n <= self.logs.len()) {
            seq![]
        } else if self.toggled_lines.contains((n - 1) as usize) {
            self.marked(n - 1).push(self.logs[n - 1].full_line())
        } else {
            self.marked(n - 1)
        }
    }

    /// The corners of the selection, the first one first in reading order.
    pub open spec fn corners(self) -> ((int, int), (int, int)) {
        let a = ((self.visual_anchor->0).0 as int, (self.visual_anchor->0).1 as int);
        let c = (self.cursor_row, self.cursor_col);
        if a.0 < c.0 || (a.0 == c.0 && a.1 <= c.1) {
            (a, c)
        } else {
            (c, a)
        }
    }

    /// What is selected of the line in row `r`.
    pub open spec fn selected_in(self, r: int, line: Seq<char>) -> Seq<char> {
        match self.visual_mode {
            VisualMode::Block => {
                let a = (self.visual_anchor->0).1 as int;
                span(line, arith::lesser(a, self.cursor_col), arith::greater(a, self.cursor_col))
            },
            VisualMode::Character => {
                let (start, end) = self.corners();
                if start.0 == end.0 {
                    span(line, start.1, end.1)
                } else if r == start.0 {
                    span(line, start.1, line.len() as int)
                } else if r == end.0 {
                    span(line, 0, end.1)
                } else {
                    line
                }
            },
            _ => line,
        }
    }

    /// The selected parts of the rows from `a` to before `b`.
    pub open spec fn selected_rows(self, a: int, b: int) -> Seq<Seq<char>>
        decreases b - a,
    {
        if a >= b {
            seq![]
        } else {
            let before = self.selected_rows(a, b - 1);
            match self.visible_log(b - 1) {
                Some(l) => before.push(self.selected_in(b - 1, l.full_line())),
                None => before,
            }
        }
    }

    /// The text to copy: the marked lines if there are any, else the selection.
    #[verifier::opaque]
    pub open spec fn selected_text(self) -> Option<Seq<char>> {
        if !self.toggled_lines.is_empty() {
            Some(stacked(self.marked(self.logs.len() as int)))
        } else if self.visual_anchor is None || self.visual_mode == VisualMode::Off {
            None
        } else {
            let a = (self.visual_anchor->0).0 as int;
            Some(
                stacked(
                    self.selected_rows(
                        arith::lesser(a, self.cursor_row),
                        arith::greater(a, self.cursor_row) + 1,
                    ),
                ),
            )
        }
    }

    // -- Services -----------------------------------------------------------

    /// Whether the search lets a service through.
    pub open spec fn service_found(self, i: int) -> bool {
        !self.show_service_search || self.service_search_query.len() == 0 || text::contains(
            text::lowercase(self.service_options[i].name),
            text::lowercase(self.service_search_query),
        )
    }

    /// The services among the first `n` that the search lets through.
    pub open spec fn found_services(self, n: int) -> Seq<usize>
        decreases n,
    {
        if !(0 < n <= self.service_options.len()) {
            seq![]
        } else if self.service_found(n - 1) {
            self.found_services(n - 1).push((n - 1) as usize)
        } else {
            self.found_services(n - 1)
        }
    }

    pub open spec fn service_rows(self) -> Seq<usize> {
        self.found_services(self.service_options.len() as int)
    }

    pub open spec fn service_search_updated(self) -> StateView {
        let n = self.service_rows().len() as int;
        if n == 0 {
            StateView { service_menu_selected_idx: 0, service_menu_scroll: 0, ..self }
        } else {
            StateView {
                service_menu_selected_idx: arith::lesser(self.service_menu_selected_idx, n - 1),
                ..self
            }
        }
    }

    // -- Filters ------------------------------------------------------------

    /// Whether the text being typed can be read as a query.
    pub open spec fn live_fits(self) -> bool {
        self.prompt_mode == PromptMode::Filter ==> query::query_fits(text::trimmed(self.input_buffer))
    }

    pub open spec fn live_updated(self) -> StateView {
        let t = text::trimmed(self.input_buffer);
        StateView {
            live_filter_ast: if self.prompt_mode == PromptMode::Filter && t.len() > 0 {
                match query::query_of(t) {
                    Ok(q) => Some(q),
                    Err(_) => None,
                }
            } else {
                None
            },
            ..self
        }
    }

    /// Whether `now` can be the point in time that ages are counted from: the
    /// time of the latest dated line, or any time if no line has one.
    pub open spec fn may_be_now(self, now: u64) -> bool {
        latest_time(self.logs, self.logs.len() as int) matches Some(t) ==> t == now
    }

    pub open spec fn accepts(self, log: LogView, now: u64) -> bool {
        service::first_enabled(self.service_options, log.service, 0) && (self.filter_ast matches Some(q) ==> q.accepts(
            log,
            now,
        ))
    }

    pub open spec fn testable(self, log: LogView, now: u64) -> bool {
        service::first_enabled(self.service_options, log.service, 0) && self.filter_ast is Some
            ==> self.filter_ast->0.testable(log, now)
    }

    /// The places of the lines to show, and the lines where they are not those of the log.
    pub open spec fn shown(self, now: u64) -> (Seq<usize>, Option<Seq<LogView>>) {
        match self.filter_ast {
            Some(q) => query::selection(q, self.logs, self.service_options, now),
            None => (
                query::indices(pipeline::selected(self.logs, None, self.service_options)),
                None,
            ),
        }
    }

    /// Whether the lines to show can be worked out.
    pub open spec fn shown_ready(self, now: u64) -> bool {
        self.filter_ast matches Some(q) ==> q.ready(self.logs, self.service_options, now)
    }

    /// The place of the line in a visible row.
    pub open spec fn index_at(self, row: int) -> Option<usize> {
        if 0 <= row < self.visible_indices.len() {
            Some(self.visible_indices[row])
        } else {
            None
        }
    }

    /// The row nearest to a line, or the given row if there is no such line.
    pub open spec fn row_of(self, target: Option<usize>, row: int) -> int {
        match target {
            Some(x) => arith::lesser(rank(self.visible_indices, x), arith::less(self.visible_count(), 1)),
            None => row,
        }
    }

    /// The state with the scroll and the cursor on the lines they were on.
    #[verifier::opaque]
    pub open spec fn place_kept(self, top: Option<usize>, at_cursor: Option<usize>) -> StateView {
        let count = self.visible_count();
        StateView {
            scroll_offset: arith::lesser(
                self.row_of(top, self.scroll_offset),
                arith::less(count, self.viewport_height),
            ),
            cursor_row: arith::lesser(self.row_of(at_cursor, self.cursor_row), arith::less(count, 1)),
            ..self
        }
    }

    /// The state with the lines to show worked out anew. The cursor and the
    /// scroll stay with the lines they were on.
    pub open spec fn recomputed(self, now: u64) -> StateView {
        let (visible, synthetic) = self.shown(now);
        (StateView { visible_indices: visible, synthetic_logs: synthetic, ..self }).place_kept(
            self.index_at(self.scroll_offset),
            self.index_at(self.cursor_row),
        )
    }

    // -- Lines coming in ----------------------------------------------------

    /// The state once the oldest line has made room for a new one.
    pub open spec fn room_made(self) -> StateView {
        if self.logs.len() >= self.max_capacity {
            StateView {
                logs: self.logs.skip(arith::lesser(1, self.logs.len() as int)),
                cursor_row: arith::less(self.cursor_row, 1),
                visual_anchor: match self.visual_anchor {
                    Some((r, c)) => Some((arith::less(r as int, 1) as usize, c)),
                    None => None,
                },
                ..self
            }
        } else {
            self
        }
    }

    /// The place of a new line.
    pub open spec fn place_of(self, item: LogView) -> int {
        let n = self.logs.len() as int;
        match item.timestamp {
            Some(ts) => place_for(self.logs, ts, n),
            None => n,
        }
    }

    /// The state with a new line in its place.
    pub open spec fn inserted(self, item: LogView) -> StateView {
        let s = self.room_made();
        StateView { logs: s.logs.insert(s.place_of(item), item), ..s }
    }

    /// Whether a new line goes behind all others and is looked at on its own.
    pub open spec fn appends(self, item: LogView) -> bool {
        let s = self.room_made();
        s.place_of(item) == s.logs.len() && !(self.filter_ast matches Some(q) && q.streams())
    }

    /// Whether the cursor stands in the last visible row.
    pub open spec fn at_bottom(self) -> bool {
        self.visible_count() == 0 || self.cursor_row + 1 >= self.visible_count()
    }

    /// Whether the new line can be taken in.
    pub open spec fn push_ready(self, item: LogView, now: u64) -> bool {
        let s = self.inserted(item);
        if self.appends(item) {
            s.testable(item, now)
        } else {
            s.shown_ready(now)
        }
    }

    /// The state with the new line shown, if it is to be shown.
    pub open spec fn noted(self, item: LogView, now: u64) -> StateView {
        let s = self.inserted(item);
        if self.appends(item) {
            if s.accepts(item, now) {
                StateView { visible_indices: s.visible_indices.push((s.logs.len() - 1) as usize), ..s }
            } else {
                s
            }
        } else {
            s.recomputed(now)
        }
    }

    /// The state once the view has followed a new line: from the bottom it
    /// stays at the bottom, from elsewhere it keeps a margin above the cursor.
    pub open spec fn followed(self, was_at_bottom: bool) -> StateView {
        let count = self.visible_count();
        if self.visual_mode != VisualMode::Off {
            self
        } else if was_at_bottom {
            if count > 0 {
                (StateView { cursor_row: count - 1, ..self }).v_adjusted().moved_to_bottom()
            } else {
                self
            }
        } else {
            StateView {
                scroll_offset: arith::lesser(
                    self.scroll_offset,
                    arith::less(self.cursor_row, arith::greater(self.scrolloff, 6)),
                ),
                ..self
            }
        }
    }

    pub open spec fn pushed(self, item: LogView, now: u64) -> StateView {
        self.noted(item, now).followed(self.at_bottom())
    }

    /// Whether a new line can be taken in, noted and followed.
    pub open spec fn can_push(self, item: LogView, now: u64) -> bool {
        &&& self.inserted(item).times_fit()
        &&& self.push_ready(item, now)
        &&& self.noted(item, now).follow_fits(self.at_bottom())
    }

    /// The state with a new line, as far as it can be taken in, noted and followed.
    pub open spec fn pushed_as_far(self, item: LogView, now: u64) -> StateView {
        if self.can_push(item, now) {
            self.pushed(item, now)
        } else if self.inserted(item).times_fit() && self.push_ready(item, now) {
            self.noted(item, now)
        } else {
            self.inserted(item)
        }
    }
}

/// The services that are found are services.
pub proof fn lemma_found_services(s: StateView, n: int)
    requires
        0 <= n <= s.service_options.len(),
        s.service_options.len() <= usize::MAX,
    ensures
        s.found_services(n).len() <= n,
        forall|i: int| 0 <= i < s.found_services(n).len() ==> (#[trigger] s.found_services(n)[i]) < n,
    decreases n,
{
    if n > 0 {
        lemma_found_services(s, n - 1);
    }
}

} // verus!
