//! Carrying out commands whatever the state, and the mouse.

use super::keys::Command;
use crate::arith::{self, max_of, min_of};
use crate::logitem;
use crate::query::{self, Query};
use crate::state::fits::lemma_same_lines;
use crate::state::view::{StateView, VisualMode};
use crate::state::AppState;
use crate::text::{self, chars_of, string_of, strip, Class};
use crate::wrap;
use vstd::prelude::*;

verus! {

/// What came of a command.
pub enum Outcome {
    /// It was carried out; the text to put on the clipboard, if there is one.
    Done(Option<String>),
    /// It cannot be carried out: the filter, the lines or the numbers do not allow it.
    Refused,
}

/// What an outcome is.
pub open spec fn outcome_view(o: Outcome) -> Option<Option<Seq<char>>> {
    match o {
        Outcome::Done(t) => Some(logitem::opt_view(t)),
        Outcome::Refused => None,
    }
}

impl AppState {
    /// Carries out a command where it can be carried out.
    pub fn perform(&mut self, cmd: Command) -> (r: Outcome)
        ensures
            exists|now: u64|
                {
                    &&& cmd.recomputes() && old(self)@.times_fit() ==> old(self)@.may_be_now(now)
                    &&& r is Done == #[trigger] old(self)@.can_do(cmd, now)
                    &&& r is Done ==> final(self)@ == old(self)@.done(cmd, now) && outcome_view(r) == Some(
                        old(self)@.text_to_copy(cmd),
                    )
                },
            r is Refused ==> final(self)@ == old(self)@.begun(cmd),
    {
        let ghost start = self@;
        match cmd {
            Command::Copy => {
                let copies: bool = self.visual_mode != VisualMode::Off || !self.toggled_lines.is_empty();
                if copies && !self.can_copy() {
                    assert(!start.can_do(cmd, 0));
                    return Outcome::Refused;
                }
            },
            Command::FlipService | Command::OnlyService | Command::AllServices(_) => {
                self.switch(cmd);
                if !self.can_tell_time() {
                    assert(!start.can_do(cmd, 0));
                    return Outcome::Refused;
                }
                let now: u64 = self.reference_timestamp_secs();
                let ghost able = start.can_do(cmd, now);
                if !self.can_recompute(now) {
                    return Outcome::Refused;
                }
                self.recompute_visible_indices_at(now);
                return Outcome::Done(None);
            },
            Command::ApplyFilter => {
                let told: bool = self.can_tell_time();
                let now: u64 = if told {
                    self.reference_timestamp_secs()
                } else {
                    0
                };
                let ghost able = start.can_do(cmd, now);
                if !self.input_readable() {
                    return Outcome::Refused;
                }
                self.set_filter();
                if !told || !self.can_recompute(now) {
                    return Outcome::Refused;
                }
                self.recompute_visible_indices_at(now);
                self.leave_prompt();
                return Outcome::Done(None);
            },
            Command::InputDelete | Command::InputBack | Command::InputClear | Command::InputDropWord
            | Command::InputInsert(_) | Command::OpenPrompt => {
                return self.edit_if_readable(cmd);
            },
            _ => {
                if !self.can_move(cmd) {
                    assert(!start.can_do(cmd, 0));
                    return Outcome::Refused;
                }
            },
        }
        assert(start.can_do(cmd, 0));
        Outcome::Done(self.perform_at(cmd, 0))
    }

    /// Whether the lines can be measured that a command looks at in moving the cursor.
    fn can_move(&self, cmd: Command) -> (r: bool)
        ensures
            r == self@.motion_fits(cmd),
    {
        match cmd {
            Command::ToggleFold => self.can_toggle_fold(),
            Command::WordBackward => self.can_measure(self.cursor_row) && self.is_cursor_on_line(),
            Command::Down(n) => self.can_move_down(n),
            Command::Up(n) => self.can_move_up(n),
            Command::Left(_) => self.can_move_left(),
            Command::WordForward | Command::WordEnd | Command::Right(_) | Command::LineStart => self.can_measure(
                self.cursor_row,
            ),
            Command::LineEnd => {
                self.can_measure_all() && self.viewport_width <= usize::MAX / 3 && self.can_measure(self.cursor_row)
            },
            Command::HalfDown => self.can_move_down(max_of(self.viewport_height / 2, 1)),
            Command::HalfUp => self.can_move_up(max_of(self.viewport_height / 2, 1)),
            Command::Bottom => self.can_move_to_bottom(),
            Command::Top => self.can_enter(0),
            _ => true,
        }
    }

    fn is_cursor_on_line(&self) -> (r: bool)
        requires
            self@.fits_at(self@.cursor_row),
        ensures
            r == self@.cursor_on_line(),
    {
        let len: usize = self.current_line_len();
        self.get_visible_log(self.cursor_row).is_none() || len == 0 || self.cursor_col <= len
    }

    /// Whether the durations of what is typed are in range.
    fn input_readable(&self) -> (r: bool)
        ensures
            r == query::query_fits(text::trimmed(self@.input_buffer)),
    {
        let v = chars_of(self.input_buffer.as_str());
        let t = string_of(strip(v.as_slice(), Class::Space));
        Query::try_parse(t.as_str()).is_some()
    }

    /// Changes the input as a command tells, where it can then be read.
    fn edit_if_readable(&mut self, cmd: Command) -> (r: Outcome)
        requires
            cmd.edits(),
        ensures
            r is Done == old(self)@.can_do(cmd, 0),
            r is Done ==> final(self)@ == old(self)@.done(cmd, 0) && outcome_view(r) == Some(
                old(self)@.text_to_copy(cmd),
            ),
            r is Refused ==> final(self)@ == old(self)@.begun(cmd),
    {
        let len: usize = self.input_buffer.as_str().unicode_len();
        match cmd {
            Command::InputDropWord => {
                if self.filter_cursor_col > len {
                    return Outcome::Refused;
                }
            },
            Command::InputInsert(_) => {
                if self.filter_cursor_col == usize::MAX {
                    return Outcome::Refused;
                }
            },
            _ => {},
        }
        if self.edit(cmd) {
            if !self.try_update_live_filter() {
                return Outcome::Refused;
            }
        }
        Outcome::Done(None)
    }
}

// ---------------------------------------------------------------------------
// The mouse
// ---------------------------------------------------------------------------

/// What the mouse does.
#[derive(Debug, Clone, Copy, PartialEq, Eq, Structural)]
pub enum MouseKind {
    Down,
    Drag,
    Up,
    ScrollDown,
    ScrollUp,
    Other,
}

/// What the mouse does, and where.
#[derive(Debug, Clone, Copy, PartialEq, Eq, Structural)]
pub struct Mouse {
    pub kind: MouseKind,
    pub column: u16,
    pub row: u16,
}

/// Whether a drag at the edge may scroll again, so many milliseconds after it last did.
pub fn auto_scroll_due(elapsed_ms: u128) -> (r: bool)
    ensures
        r == (elapsed_ms >= 60),
{
    elapsed_ms >= 60
}

impl StateView {
    /// Whether a cell lies in the menu of services.
    pub open spec fn in_menu(self, column: int, row: int) -> bool {
        let w = arith::lesser(46, self.viewport_width % 65536);
        let height = self.viewport_height % 65536;
        let h = arith::lesser(14, height);
        column < w && height - h <= row < height
    }

    /// The state with the cursor on the text under a cell.
    pub open spec fn pointed(self, m: Mouse) -> StateView {
        let (r, c) = self.pos_at(m.column as int, m.row as int);
        StateView { cursor_row: r, cursor_col: c, ..self }
    }

    pub open spec fn pressed(self, m: Mouse) -> StateView {
        let (r, c) = self.pos_at(m.column as int, m.row as int);
        let on_tag = self.pointed(m).on_tag(m.column as int, m.row as int);
        (StateView {
            visual_mode: if on_tag {
                VisualMode::Line
            } else {
                VisualMode::Character
            },
            visual_anchor: Some(
                (
                    r as usize,
                    if on_tag {
                        0
                    } else {
                        c as usize
                    },
                ),
            ),
            is_mouse_dragging: false,
            last_mouse_pos: Some((m.column, m.row)),
            sticky: false,
            ..self.pointed(m)
        }).h_adjusted_if_folded()
    }

    pub open spec fn dragged(self, m: Mouse) -> StateView {
        (StateView { is_mouse_dragging: true, last_mouse_pos: Some((m.column, m.row)), ..self.pointed(m) }).h_adjusted()
    }

    /// The text that the end of a drag puts on the clipboard.
    pub open spec fn dragged_text(self) -> Option<Seq<char>> {
        if self.is_mouse_dragging && self.visual_mode != VisualMode::Off && self.selected_text() is Some
            && self.selected_text()->0.len() > 0 {
            self.selected_text()
        } else {
            None
        }
    }

    pub open spec fn released(self) -> StateView {
        (StateView {
            clipboard_notice: if self.dragged_text() is Some {
                Some("Copied to clipboard"@)
            } else {
                self.clipboard_notice
            },
            ..self
        }).mode_left()
    }

    /// The state once the mouse has been heeded outside the menu.
    pub open spec fn mouse_heeded(self, m: Mouse) -> StateView {
        match m.kind {
            MouseKind::Down => self.pressed(m),
            MouseKind::Drag => self.dragged(m),
            MouseKind::Up => self.released(),
            MouseKind::ScrollDown => StateView { sticky: false, ..self.moved_down(3) },
            MouseKind::ScrollUp => StateView { sticky: false, ..self.moved_up(3) },
            MouseKind::Other => self,
        }
    }

    /// Whether the open menu keeps the mouse to itself.
    pub open spec fn menu_holds(self, m: Mouse) -> bool {
        self.show_service_menu && (self.in_menu(m.column as int, m.row as int) || m.kind != MouseKind::Down)
    }

    /// Whether the lines can be measured that the mouse makes look at.
    pub open spec fn mouse_fits(self, m: Mouse) -> bool {
        !self.menu_holds(m) ==> match m.kind {
            MouseKind::Down => self.point_fits(m.row as int),
            MouseKind::Drag => self.point_fits(m.row as int) && self.fits_at(
                self.pos_at(m.column as int, m.row as int).0,
            ),
            MouseKind::Up => self.is_mouse_dragging && self.visual_mode != VisualMode::Off ==> self.selection_fits(),
            MouseKind::ScrollDown => self.down_fits(3),
            MouseKind::ScrollUp => self.up_fits(3),
            MouseKind::Other => true,
        }
    }

    /// The state once the mouse has been heeded. A press beside the open menu closes it.
    pub open spec fn after_mouse(self, m: Mouse) -> StateView {
        if self.menu_holds(m) {
            self
        } else if self.show_service_menu {
            (StateView { show_service_menu: false, show_service_search: false, ..self }).mouse_heeded(m)
        } else {
            self.mouse_heeded(m)
        }
    }

    /// The text that the mouse puts on the clipboard.
    pub open spec fn mouse_text(self, m: Mouse) -> Option<Seq<char>> {
        if !self.menu_holds(m) && m.kind == MouseKind::Up {
            self.dragged_text()
        } else {
            None
        }
    }
}

impl AppState {
    fn is_in_menu(&self, column: u16, row: u16) -> (r: bool)
        ensures
            r == self@.in_menu(column as int, row as int),
    {
        let width: usize = self.viewport_width % 65536;
        let height: usize = self.viewport_height % 65536;
        let w: usize = min_of(46, width);
        let h: usize = min_of(14, height);
        (column as usize) < w && (row as usize) >= height - h && (row as usize) < height
    }

    fn point(&mut self, m: Mouse)
        requires
            old(self)@.point_fits(m.row as int),
        ensures
            final(self)@ == old(self)@.pointed(m),
    {
        let (r, c) = self.screen_coords_to_char_pos(m.column as usize, m.row as usize);
        self.cursor_row = r;
        self.cursor_col = c;
    }

    fn press(&mut self, m: Mouse)
        requires
            old(self)@.point_fits(m.row as int),
        ensures
            final(self)@ == old(self)@.pressed(m),
    {
        let ghost start = self@;
        self.point(m);
        proof {
            lemma_point_fits_same(start, self@, m.row as int);
            lemma_pressed_row(start, m);
        }
        if self.is_screen_coords_on_tag(m.column as usize, m.row as usize) {
            self.visual_mode = VisualMode::Line;
            self.visual_anchor = Some((self.cursor_row, 0));
        } else {
            self.visual_mode = VisualMode::Character;
            self.visual_anchor = Some((self.cursor_row, self.cursor_col));
        }
        self.is_mouse_dragging = false;
        self.last_mouse_pos = Some((m.column, m.row));
        self.sticky = false;
        proof {
            lemma_same_lines(start, self@);
        }
        if self.line_fold {
            self.adjust_h_scroll();
        }
    }

    fn release(&mut self) -> (r: Option<String>)
        requires
            old(self)@.is_mouse_dragging && old(self)@.visual_mode != VisualMode::Off ==> old(self)@.selection_fits(),
        ensures
            final(self)@ == old(self)@.released(),
            logitem::opt_view(r) == old(self)@.dragged_text(),
    {
        let mut copied: Option<String> = None;
        if self.is_mouse_dragging && self.visual_mode != VisualMode::Off {
            if let Some(text) = self.get_selected_text() {
                if text.as_str().unicode_len() > 0 {
                    self.set_copied_notification();
                    copied = Some(text);
                }
            }
        }
        self.exit_visual_mode();
        copied
    }

    /// Whether the lines can be measured that the mouse makes look at.
    pub fn can_heed(&self, m: Mouse) -> (r: bool)
        ensures
            r == self@.mouse_fits(m),
    {
        if self.show_service_menu && (self.is_in_menu(m.column, m.row) || m.kind != MouseKind::Down) {
            return true;
        }
        match m.kind {
            MouseKind::Down => self.can_point(m.row as usize),
            MouseKind::Drag => {
                if !self.can_point(m.row as usize) {
                    return false;
                }
                let (row, _col): (usize, usize) = self.screen_coords_to_char_pos(m.column as usize, m.row as usize);
                self.can_measure(row)
            },
            MouseKind::Up => !self.is_mouse_dragging || self.visual_mode == VisualMode::Off || self.can_copy(),
            MouseKind::ScrollDown => self.can_move_down(3),
            MouseKind::ScrollUp => self.can_move_up(3),
            MouseKind::Other => true,
        }
    }

    /// Heeds the mouse. The text to put on the clipboard, if there is one.
    pub fn on_mouse(&mut self, m: Mouse) -> (r: Option<String>)
        requires
            old(self)@.mouse_fits(m),
        ensures
            final(self)@ == old(self)@.after_mouse(m),
            logitem::opt_view(r) == old(self)@.mouse_text(m),
    {
        let ghost start = self@;
        if self.show_service_menu {
            if self.is_in_menu(m.column, m.row) || m.kind != MouseKind::Down {
                return None;
            }
            self.show_service_menu = false;
            self.show_service_search = false;
            proof {
                lemma_point_fits_same(start, self@, m.row as int);
            }
        }
        let ghost closed = self@;
        match m.kind {
            MouseKind::Down => self.press(m),
            MouseKind::Drag => {
                self.point(m);
                self.is_mouse_dragging = true;
                self.last_mouse_pos = Some((m.column, m.row));
                proof {
                    lemma_same_lines(closed, self@);
                }
                self.adjust_h_scroll();
            },
            MouseKind::Up => return self.release(),
            MouseKind::ScrollDown => {
                self.move_down(3);
                self.sticky = false;
            },
            MouseKind::ScrollUp => {
                self.move_up(3);
                self.sticky = false;
            },
            MouseKind::Other => {},
        }
        None
    }
}

/// Where the text under a row of the screen is found does not depend on the cursor
/// nor on the menu.
proof fn lemma_point_fits_same(a: StateView, b: StateView, y: int)
    requires
        b == (StateView {
            cursor_row: b.cursor_row,
            cursor_col: b.cursor_col,
            show_service_menu: b.show_service_menu,
            show_service_search: b.show_service_search,
            ..a
        }),
    ensures
        a.point_fits(y) == b.point_fits(y),
{
    lemma_same_lines(a, b);
    lemma_part_fits_same(a, b, a.scroll_offset, y);
}

proof fn lemma_part_fits_same(a: StateView, b: StateView, r: int, y: int)
    requires
        a.logs == b.logs,
        a.visible_indices == b.visible_indices,
        a.synthetic_logs == b.synthetic_logs,
        a.viewport_width == b.viewport_width,
    ensures
        a.part_fits(r, y) == b.part_fits(r, y),
    decreases a.visible_count() - r,
{
    lemma_same_lines(a, b);
    assert(a.visible_log(r) == b.visible_log(r));
    if 0 <= r < a.visible_count() {
        match a.visible_log(r) {
            None => lemma_part_fits_same(a, b, r + 1, y),
            Some(l) => {
                let n = wrap::chunks_of(l.content, a.wrap_width(l)).len();
                lemma_part_fits_same(a, b, r + 1, y - n);
            },
        }
    }
}

/// Where lines are cut, the row that is pointed at is the one under the mouse.
proof fn lemma_pressed_row(s: StateView, m: Mouse)
    ensures
        s.line_fold && s.visible_count() > 0 ==> s.pointed(m).cursor_row == s.folded_row(m.row as int),
        s.visible_count() == 0 ==> s.visible_log(s.pointed(m).cursor_row) is None,
{
    reveal(StateView::pos_at);
}

} // verus!
