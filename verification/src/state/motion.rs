//! Moving the cursor and keeping it on the screen.

use super::fits::{lemma_same_lines, lemma_v_adjusted};
use super::view::StateView;
use super::AppState;
use crate::arith::{min_of, sum_up_to};
use crate::text::{chars_of, scan_backward, scan_forward, Class};
use vstd::prelude::*;

verus! {

impl AppState {
    pub fn adjust_h_scroll(&mut self)
        requires
            old(self)@.fits_at(old(self)@.cursor_row),
        ensures
            final(self)@ == old(self)@.h_adjusted(),
    {
        reveal(StateView::h_adjusted);
        let prefix: usize = self.prefix_at(self.cursor_row);
        let avail: usize = self.viewport_width.saturating_sub(prefix);
        if avail <= 2 {
            return;
        }
        let window: usize = avail - 2;
        let col: usize = self.cursor_col.saturating_sub(prefix);
        let margin: usize = min_of(self.h_scrolloff, (window - 1) / 2);
        let left: usize = if (col as u128) < self.h_scroll as u128 + margin as u128 {
            col.saturating_sub(margin)
        } else {
            self.h_scroll
        };
        let right: usize = if col as u128 + margin as u128 >= left as u128 + window as u128 {
            let t: u128 = col as u128 + margin as u128 + 1 - window as u128;
            t as usize
        } else {
            left
        };
        self.h_scroll = min_of(right, self.max_content_len().saturating_sub(window));
    }

    pub fn adjust_scroll(&mut self)
        requires
            old(self)@.scroll_fits(old(self)@.cursor_row),
        ensures
            final(self)@ == old(self)@.v_adjusted(),
    {
        reveal(StateView::v_adjusted);
        let count: usize = self.visible_count();
        if self.viewport_height == 0 || count == 0 {
            return;
        }
        if self.line_fold {
            let so: usize = min_of(self.scrolloff, (self.viewport_height - 1) / 2);
            let up: usize = if (self.cursor_row as u128) < self.scroll_offset as u128 + so as u128 {
                self.cursor_row.saturating_sub(so)
            } else {
                self.scroll_offset
            };
            let down: usize = if self.cursor_row as u128 + so as u128 >= up as u128 + self.viewport_height as u128 {
                let t: u128 = self.cursor_row as u128 + so as u128 + 1 - self.viewport_height as u128;
                t as usize
            } else {
                up
            };
            self.scroll_offset = min_of(down, count.saturating_sub(self.viewport_height));
        } else {
            if self.cursor_row < self.scroll_offset {
                self.scroll_offset = self.cursor_row;
                return;
            }
            assert(self@.fit_between(self@.scroll_offset, self@.cursor_row));
            assert(self@.fits_at(self@.cursor_row));
            let above: u128 = self.height_between(self.scroll_offset, self.cursor_row);
            let here: usize = self.height_of(self.cursor_row);
            assert(self.cursor_row * 0xffff_ffff_ffff_ffff <= 0xffff_ffff_ffff_ffff * 0xffff_ffff_ffff_ffff);
            let mut total: u128 = above + here as u128;
            let mut off: usize = self.scroll_offset;
            let ghost before = self@;
            while off < self.cursor_row && total > self.viewport_height as u128
                invariant
                    self@ == before,
                    before.fit_between(before.scroll_offset, before.cursor_row),
                    before.scroll_offset <= off <= self.cursor_row,
                    before.forward_from(
                        before.scroll_offset,
                        before.height_between(before.scroll_offset, before.cursor_row + 1),
                    ) == before.forward_from(off as int, total as int),
                decreases self.cursor_row - off,
            {
                assert(self@.fits_at(off as int));
                let h: usize = self.height_of(off);
                total = if total > h as u128 {
                    total - h as u128
                } else {
                    0
                };
                off += 1;
            }
            self.scroll_offset = off;
        }
    }

    fn clamp_col(&mut self)
        requires
            old(self)@.fits_at(old(self)@.cursor_row),
        ensures
            final(self)@ == old(self)@.col_clamped(),
    {
        let end: usize = self.current_line_content_end_col();
        if self.cursor_col > end {
            self.cursor_col = end;
        }
    }

    fn move_to_col(&mut self, col: usize)
        requires
            old(self)@.line_fold ==> old(self)@.fits_at(old(self)@.cursor_row),
        ensures
            final(self)@ == old(self)@.moved_to_col(col as int),
    {
        proof {
            lemma_same_lines(self@, StateView { cursor_col: col as int, ..self@ });
        }
        self.cursor_col = col;
        if self.line_fold {
            self.adjust_h_scroll();
        }
    }

    /// Puts the cursor into a row: the scroll first, the column after.
    fn enter(&mut self, row: usize)
        requires
            old(self)@.row_fits(row as int),
        ensures
            final(self)@ == (StateView { cursor_row: row as int, ..old(self)@ }).v_adjusted().col_clamped(),
    {
        let ghost moved = StateView { cursor_row: row as int, ..self@ };
        proof {
            lemma_same_lines(self@, moved);
            lemma_v_adjusted(moved);
            lemma_same_lines(self@, moved.v_adjusted());
        }
        self.cursor_row = row;
        self.adjust_scroll();
        self.clamp_col();
    }

    /// Puts the cursor into a row: the column first, the scroll after.
    fn settle(&mut self, row: usize)
        requires
            old(self)@.row_fits(row as int),
        ensures
            final(self)@ == (StateView { cursor_row: row as int, ..old(self)@ }).col_clamped().v_adjusted(),
    {
        let ghost moved = StateView { cursor_row: row as int, ..self@ };
        proof {
            lemma_same_lines(self@, moved);
            lemma_same_lines(self@, moved.col_clamped());
        }
        self.cursor_row = row;
        self.clamp_col();
        self.adjust_scroll();
    }

    pub fn move_down(&mut self, amount: usize)
        requires
            old(self)@.down_fits(amount as int),
        ensures
            final(self)@ == old(self)@.moved_down(amount as int),
    {
        let count: usize = self.visible_count();
        if count == 0 {
            return;
        }
        let row: usize = sum_up_to(self.cursor_row, amount, count - 1);
        self.enter(row);
    }

    pub fn move_up(&mut self, amount: usize)
        requires
            old(self)@.up_fits(amount as int),
        ensures
            final(self)@ == old(self)@.moved_up(amount as int),
    {
        self.enter(self.cursor_row.saturating_sub(amount));
    }

    pub fn move_left(&mut self, amount: usize)
        requires
            old(self)@.left_fits(),
        ensures
            final(self)@ == old(self)@.moved_left(amount as int),
    {
        if self.cursor_col > 0 {
            self.move_to_col(self.cursor_col.saturating_sub(amount));
        } else if self.h_scroll > 0 && self.line_fold {
            self.h_scroll = self.h_scroll.saturating_sub(amount);
        }
    }

    pub fn move_right(&mut self, amount: usize)
        requires
            old(self)@.fits_at(old(self)@.cursor_row),
        ensures
            final(self)@ == old(self)@.moved_right(amount as int),
    {
        let end: usize = self.current_line_content_end_col();
        let max_h: usize = self.max_content_len().saturating_sub(self.viewport_content_window_width());
        if self.cursor_col < end {
            self.move_to_col(sum_up_to(self.cursor_col, amount, end));
        } else if self.line_fold {
            self.h_scroll = sum_up_to(self.h_scroll, amount, max_h);
        }
    }

    /// The characters of the line that the cursor is on.
    fn current_line(&self) -> (r: Option<Vec<char>>)
        requires
            self@.fits_at(self@.cursor_row),
        ensures
            r matches Some(v) ==> self@.visible_log(self.cursor_row as int) is Some && v@ == self@.visible_log(
                self.cursor_row as int,
            )->0.full_line(),
            r is None ==> self@.visible_log(self.cursor_row as int) is None,
    {
        match self.get_visible_log(self.cursor_row) {
            Some(l) => Some(chars_of(l.full_line_text().as_str())),
            None => None,
        }
    }

    pub fn move_word_forward(&mut self)
        requires
            old(self)@.fits_at(old(self)@.cursor_row),
        ensures
            final(self)@ == old(self)@.moved_word_forward(),
    {
        let chars = match self.current_line() {
            Some(v) => v,
            None => return,
        };
        let s = chars.as_slice();
        let len: usize = s.len();
        if len == 0 || self.cursor_col >= len - 1 {
            return;
        }
        let i: usize = self.cursor_col;
        let j: usize = if Class::Space.test(s[i]) {
            scan_forward(s, i, Class::Space)
        } else if Class::Word.test(s[i]) {
            scan_forward(s, scan_forward(s, i, Class::Word), Class::Space)
        } else {
            scan_forward(s, scan_forward(s, i, Class::Punct), Class::Space)
        };
        self.move_to_col(min_of(j, len - 1));
    }

    pub fn move_word_backward(&mut self)
        requires
            old(self)@.fits_at(old(self)@.cursor_row),
            old(self)@.cursor_on_line(),
        ensures
            final(self)@ == old(self)@.moved_word_backward(),
    {
        let chars = match self.current_line() {
            Some(v) => v,
            None => return,
        };
        let s = chars.as_slice();
        if s.len() == 0 || self.cursor_col == 0 {
            return;
        }
        let k: usize = scan_backward(s, self.cursor_col, Class::Space).saturating_sub(1);
        let i: usize = if Class::Word.test(s[k]) {
            scan_backward(s, k, Class::Word)
        } else if !Class::Space.test(s[k]) {
            scan_backward(s, k, Class::Punct)
        } else {
            k
        };
        self.move_to_col(i);
    }

    pub fn move_word_end(&mut self)
        requires
            old(self)@.fits_at(old(self)@.cursor_row),
        ensures
            final(self)@ == old(self)@.moved_word_end(),
    {
        let chars = match self.current_line() {
            Some(v) => v,
            None => return,
        };
        let s = chars.as_slice();
        let len: usize = s.len();
        if len == 0 || self.cursor_col >= len - 1 {
            return;
        }
        let k: usize = scan_forward(s, self.cursor_col + 1, Class::Space);
        if k >= len {
            return;
        }
        let e: usize = if Class::Word.test(s[k]) {
            scan_forward(s, k + 1, Class::Word)
        } else {
            scan_forward(s, k + 1, Class::Punct)
        };
        self.move_to_col(e - 1);
    }

    pub fn move_to_top(&mut self)
        requires
            old(self)@.row_fits(0),
        ensures
            final(self)@ == old(self)@.moved_to_top(),
    {
        self.settle(0);
    }

    pub fn move_to_bottom(&mut self)
        requires
            old(self)@.bottom_fits(),
        ensures
            final(self)@ == old(self)@.moved_to_bottom(),
    {
        let count: usize = self.visible_count();
        if count > 0 {
            self.settle(count - 1);
        }
    }

    pub fn toggle_line_fold(&mut self)
        requires
            old(self)@.fold_fits(),
        ensures
            final(self)@ == old(self)@.fold_toggled(),
    {
        reveal(StateView::fold_toggled);
        if self.visible_count() == 0 {
            self.line_fold = !self.line_fold;
            return;
        }
        let bottom: usize = self.viewport_height.saturating_sub(1);
        let y: usize = if self.line_fold {
            min_of(self.cursor_row.saturating_sub(self.scroll_offset), bottom)
        } else {
            let above: u128 = self.height_between(self.scroll_offset, self.cursor_row);
            if above < bottom as u128 {
                above as usize
            } else {
                bottom
            }
        };
        assert(y == self@.cursor_screen_row());
        let ghost start = self@;
        self.line_fold = !self.line_fold;
        if self.line_fold {
            self.scroll_offset = self.cursor_row.saturating_sub(y);
            proof {
                lemma_same_lines(start, self@);
            }
            self.adjust_h_scroll();
        } else {
            let ghost flipped = self@;
            self.h_scroll = 0;
            let mut room: usize = y;
            let mut off: usize = self.cursor_row;
            let ghost shown = self@;
            proof {
                lemma_back_from_same(flipped, shown, off as int, room as int);
                lemma_back_fits_same(start, shown, off as int, room as int);
            }
            while off > 0 && room > 0
                invariant_except_break
                    self@ == shown,
                    shown.back_fits(off as int, room as int),
                    off <= shown.cursor_row,
                    shown.back_from(shown.cursor_row, y as int) == shown.back_from(off as int, room as int),
                ensures
                    self@ == shown,
                    off == shown.back_from(shown.cursor_row, y as int),
                decreases off,
            {
                if self.get_visible_log(off - 1).is_none() {
                    break;
                }
                let h: usize = self.height_of(off - 1);
                if room < h {
                    break;
                }
                room -= h;
                off -= 1;
            }
            self.scroll_offset = off;
        }
    }
}

/// The heights of lines do not depend on the horizontal scroll.
proof fn lemma_back_from_same(a: StateView, b: StateView, off: int, room: int)
    requires
        b == (StateView { h_scroll: b.h_scroll, ..a }),
    ensures
        a.back_from(off, room) == b.back_from(off, room),
    decreases off,
{
    assert(forall|r: int| a.visible_log(r) == #[trigger] b.visible_log(r));
    assert(forall|r: int| a.height_of(r) == #[trigger] b.height_of(r));
    if off > 0 && room > 0 && a.visible_log(off - 1) is Some && room >= a.height_of(off - 1) {
        lemma_back_from_same(a, b, off - 1, room - a.height_of(off - 1));
    }
}

/// Nor does it matter to them whether lines are wrapped.
proof fn lemma_back_fits_same(a: StateView, b: StateView, off: int, room: int)
    requires
        b == (StateView { h_scroll: b.h_scroll, line_fold: b.line_fold, ..a }),
    ensures
        a.back_fits(off, room) == b.back_fits(off, room),
    decreases off,
{
    lemma_same_lines(a, b);
    assert(forall|r: int| a.height_of(r) == #[trigger] b.height_of(r));
    if off > 0 && room > 0 && a.visible_log(off - 1) is Some && room >= a.height_of(off - 1) {
        lemma_back_fits_same(a, b, off - 1, room - a.height_of(off - 1));
    }
}

} // verus!
