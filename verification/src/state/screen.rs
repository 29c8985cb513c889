//! From cells of the screen to places in the text.

use super::view::{self, StateView};
use super::{lemma_showable, AppState};
use crate::arith::{self, min_of, sum_up_to};
use crate::logitem::LogItem;
use crate::text::{chars_of, string_of};
use crate::wrap::{
    self, char_at_display_width, get_log_visual_chunks, get_unfolded_content_width,
};
use vstd::prelude::*;
use vstd::slice::slice_subrange;

verus! {

impl AppState {
    /// The visible row and the part of it in row `y` of the screen, where lines are wrapped.
    fn find_part(&self, y: usize) -> (r: Option<(usize, usize)>)
        requires
            self@.part_fits(self.scroll_offset as int, y as int),
        ensures
            r matches Some(p) ==> self@.part_at(self.scroll_offset as int, y as int) == Some(
                (p.0 as int, p.1 as int),
            ) && self@.visible_log(p.0 as int) is Some && self@.fits_at(p.0 as int),
            r is None ==> self@.part_at(self.scroll_offset as int, y as int) is None,
    {
        let count: usize = self.visible_count();
        let mut row: usize = self.scroll_offset;
        let mut left: usize = y;
        while row < count
            invariant
                self@.part_fits(row as int, left as int),
                count == self@.visible_count(),
                self@.part_at(self.scroll_offset as int, y as int) == self@.part_at(row as int, left as int),
            decreases count - row,
        {
            match self.get_visible_log(row) {
                Some(l) => {
                    proof {
                        wrap::law_rows_are_chunks(l@.content, self@.wrap_width(l@));
                    }
                    let h: usize = self.height_of(row);
                    if left < h {
                        return Some((row, left));
                    }
                    left -= h;
                },
                None => {},
            }
            row += 1;
        }
        None
    }

    fn mark_width(&self, row: usize) -> (r: usize)
        ensures
            r == self@.mark_width(row as int),
            r <= 2,
    {
        if self.is_row_toggled(row) {
            2
        } else {
            0
        }
    }

    pub fn is_screen_coords_on_tag(&self, screen_x: usize, screen_y: usize) -> (r: bool)
        requires
            self@.point_fits(screen_y as int),
        ensures
            r == self@.on_tag(screen_x as int, screen_y as int),
    {
        reveal(StateView::on_tag);
        let count: usize = self.visible_count();
        if count == 0 {
            return false;
        }
        if self.line_fold {
            let row: usize = sum_up_to(self.scroll_offset, screen_y, count - 1);
            match self.get_visible_log(row) {
                Some(l) => !l.is_system && screen_x as u128 <= l.prefix_len() as u128 + self.mark_width(row) as u128,
                None => false,
            }
        } else {
            match self.find_part(screen_y) {
                Some((row, _)) => screen_x as u128 <= self.prefix_at(row) as u128 + self.mark_width(row) as u128,
                None => false,
            }
        }
    }

    /// The column under column `x` of the screen where lines are cut.
    fn folded_col(&self, log: &LogItem, x: usize) -> (r: usize)
        requires
            view::showable(log@),
        ensures
            r == self@.folded_col(log@, x as int),
    {
        if log.is_system {
            return char_at_display_width(log.content.as_str(), x);
        }
        proof {
            lemma_showable(log@);
        }
        let p_len: usize = log.prefix_len();
        let tag = log.tag_text();
        let p_width: u128 = tag_width(tag.as_str());
        assert(p_width == wrap::width_up_to(log@.tag(), p_len as int));
        if x as u128 <= p_width {
            return 0;
        }
        let content = chars_of(log.content.as_str());
        let pad: u128 = if self.h_scroll > 0 && content.len() > 0 {
            1
        } else {
            0
        };
        let used: u128 = p_width + pad;
        let content_x: usize = if x as u128 > used {
            (x as u128 - used) as usize
        } else {
            0
        };
        let start: usize = min_of(self.h_scroll, content.len());
        let rest = slice_subrange(content.as_slice(), start, content.len());
        assert(rest@ =~= log@.content.skip(start as int));
        let text = string_of(rest);
        let off: usize = char_at_display_width(text.as_str(), content_x);
        let end: usize = p_len + content.len();
        let col: u128 = p_len as u128 + self.h_scroll as u128 + off as u128;
        if col < end as u128 {
            col as usize
        } else {
            end
        }
    }

    /// The column under column `x` of the screen in a part of a wrapped line.
    fn wrapped_col(&self, row: usize, part: usize, x: usize) -> (r: usize)
        requires
            self@.fits_at(row as int),
            self@.visible_log(row as int) is Some,
            part < wrap::chunks_of(
                self@.visible_log(row as int)->0.content,
                self@.wrap_width(self@.visible_log(row as int)->0),
            ).len(),
        ensures
            r == self@.wrapped_col(row as int, part as int, x as int),
    {
        match self.get_visible_log(row) {
            Some(l) => {
                proof {
                    lemma_showable(l@);
                }
                let p_len: usize = l.prefix_len();
                let left: u128 = p_len as u128 + self.mark_width(row) as u128;
                if x as u128 <= left {
                    return 0;
                }
                let w: usize = get_unfolded_content_width(self.viewport_width, p_len);
                let chunks = get_log_visual_chunks(l.content.as_str(), w);
                let ghost views = wrap::chunks_view(chunks@);
                proof {
                    wrap::law_chunks_inside(l@.content, w as int);
                    assert(views[part as int] == chunks@[part as int]@);
                }
                let chunk = &chunks[part];
                let off: usize = char_at_display_width(chunk.text.as_str(), (x as u128 - left) as usize);
                p_len + (chunk.content_char_start + off)
            },
            None => 0,
        }
    }

    /// The last row from the scroll on that holds a line.
    fn last_row(&self, count: usize) -> (r: usize)
        requires
            count == self@.visible_count(),
            count > 0,
        ensures
            r == self@.last_row(
                self.scroll_offset as int,
                arith::lesser(self.scroll_offset as int, count - 1),
            ),
    {
        let mut last: usize = min_of(self.scroll_offset, count - 1);
        let mut row: usize = self.scroll_offset;
        while row < count
            invariant
                count == self@.visible_count(),
                self@.last_row(
                    self.scroll_offset as int,
                    arith::lesser(self.scroll_offset as int, count - 1),
                ) == self@.last_row(row as int, last as int),
            decreases count - row,
        {
            if self.get_visible_log(row).is_some() {
                last = row;
            }
            row += 1;
        }
        last
    }

    pub fn screen_coords_to_char_pos(&self, screen_x: usize, screen_y: usize) -> (r: (usize, usize))
        requires
            self@.point_fits(screen_y as int),
        ensures
            (r.0 as int, r.1 as int) == self@.pos_at(screen_x as int, screen_y as int),
    {
        reveal(StateView::pos_at);
        let count: usize = self.visible_count();
        if count == 0 {
            return (0, 0);
        }
        if self.line_fold {
            let row: usize = sum_up_to(self.scroll_offset, screen_y, count - 1);
            match self.get_visible_log(row) {
                Some(l) => (row, self.folded_col(l, screen_x)),
                None => (row, 0),
            }
        } else {
            match self.find_part(screen_y) {
                Some((row, part)) => {
                    proof {
                        lemma_part_exists(self@, self.scroll_offset as int, screen_y as int);
                    }
                    (row, self.wrapped_col(row, part, screen_x))
                },
                None => (self.last_row(count), 0),
            }
        }
    }

    /// Scrolls up or down where the mouse is near the upper or the lower edge.
    fn scroll_rows(&mut self, my: u16, h: u16) -> (r: bool)
        requires
            old(self)@.rows_scroll_fits(my as int),
            h == old(self)@.viewport_height % 65536,
        ensures
            r == (my < 5 || my >= arith::less(h as int, 5)),
            final(self)@ == old(self)@.rows_scrolled(my as int),
    {
        if my < 5 {
            let speed: usize = if my == 0 {
                2
            } else {
                1
            };
            self.move_up(speed);
            true
        } else if my >= h.saturating_sub(5) {
            let speed: usize = if my >= h.saturating_sub(1) {
                2
            } else {
                1
            };
            self.move_down(speed);
            true
        } else {
            false
        }
    }

    /// Scrolls left or right where the mouse is near the left or the right edge.
    fn scroll_cols(&mut self, mx: u16, w: u16) -> (r: bool)
        requires
            old(self)@.cols_scroll_fits(mx as int),
            w == old(self)@.viewport_width % 65536,
        ensures
            r == (mx < 5 || mx >= arith::less(w as int, 5)),
            final(self)@ == old(self)@.cols_scrolled(mx as int),
    {
        if mx < 5 {
            let speed: usize = if mx == 0 {
                4
            } else {
                2
            };
            self.move_left(speed);
            true
        } else if mx >= w.saturating_sub(5) {
            let speed: usize = if mx >= w.saturating_sub(1) {
                4
            } else {
                2
            };
            self.move_right(speed);
            true
        } else {
            false
        }
    }

    /// Where the mouse is and the size of the screen, if a drag at the edge scrolls now.
    fn auto_scroll_at(&self) -> (r: Option<(u16, u16, u16, u16)>)
        ensures
            r is Some == self@.auto_scrolls(),
            r matches Some((mx, my, w, h)) ==> {
                &&& self@.last_mouse_pos == Some((mx, my))
                &&& w == self@.viewport_width % 65536
                &&& h == self@.viewport_height % 65536
            },
    {
        if !self.is_mouse_dragging {
            return None;
        }
        let (mx, my) = match self.last_mouse_pos {
            Some(pos) => pos,
            None => return None,
        };
        let h: u16 = (self.viewport_height % 65536) as u16;
        let w: u16 = (self.viewport_width % 65536) as u16;
        if h == 0 || w == 0 {
            return None;
        }
        if my < 5 || my >= h.saturating_sub(5) || mx < 5 || mx >= w.saturating_sub(5) {
            Some((mx, my, w, h))
        } else {
            None
        }
    }

    pub fn trigger_mouse_auto_scroll(&mut self) -> (r: bool)
        requires
            old(self)@.auto_fits(),
        ensures
            r == old(self)@.auto_scrolls(),
            final(self)@ == old(self)@.auto_scrolled(),
    {
        let (mx, my, w, h) = match self.auto_scroll_at() {
            Some(at) => at,
            None => return false,
        };
        proof {
            lemma_rows_scrolled(self@, my as int);
        }
        self.scroll_rows(my, h);
        self.scroll_cols(mx, w);
        let (r, c) = self.screen_coords_to_char_pos(mx as usize, my as usize);
        self.cursor_row = r;
        self.cursor_col = c;
        true
    }

    /// `trigger_mouse_auto_scroll`, as far as the lines that it looks at can be measured.
    pub fn try_auto_scroll(&mut self) -> (r: Option<bool>)
        ensures
            r is Some == old(self)@.auto_fits(),
            r matches Some(b) ==> b == old(self)@.auto_scrolls() && final(self)@ == old(self)@.auto_scrolled(),
            r is None ==> final(self)@ == old(self)@.auto_begun(),
    {
        let (mx, my, w, h) = match self.auto_scroll_at() {
            Some(at) => at,
            None => return Some(false),
        };
        proof {
            lemma_rows_scrolled(self@, my as int);
        }
        if !self.can_scroll_rows(my, h) {
            return None;
        }
        self.scroll_rows(my, h);
        if !self.can_scroll_cols(mx, w) {
            return None;
        }
        self.scroll_cols(mx, w);
        if !self.can_point(my as usize) {
            return None;
        }
        let (r, c) = self.screen_coords_to_char_pos(mx as usize, my as usize);
        self.cursor_row = r;
        self.cursor_col = c;
        Some(true)
    }

    fn can_scroll_rows(&self, my: u16, h: u16) -> (r: bool)
        requires
            h == self@.viewport_height % 65536,
        ensures
            r == self@.rows_scroll_fits(my as int),
    {
        if my < 5 {
            self.can_move_up(
                if my == 0 {
                    2
                } else {
                    1
                },
            )
        } else if my >= h.saturating_sub(5) {
            self.can_move_down(
                if my >= h.saturating_sub(1) {
                    2
                } else {
                    1
                },
            )
        } else {
            true
        }
    }

    fn can_scroll_cols(&self, mx: u16, w: u16) -> (r: bool)
        requires
            w == self@.viewport_width % 65536,
        ensures
            r == self@.cols_scroll_fits(mx as int),
    {
        if mx < 5 {
            self.can_move_left()
        } else if mx >= w.saturating_sub(5) {
            self.can_measure(self.cursor_row)
        } else {
            true
        }
    }
}

/// Scrolling up and down leaves the size of the screen as it is.
proof fn lemma_rows_scrolled(s: StateView, my: int)
    ensures
        s.rows_scrolled(my).viewport_width == s.viewport_width,
{
    reveal(StateView::v_adjusted);
}

/// The cells that a tag takes up.
fn tag_width(tag: &str) -> (r: u128)
    ensures
        r == wrap::width_up_to(tag@, tag@.len() as int),
        r <= 2 * tag@.len(),
{
    proof {
        wrap::lemma_width(tag@, tag@.len() as int);
    }
    wrap::str_display_width_up_to(tag, tag.unicode_len()) as u128
}

/// A part that is found is a part of its line.
proof fn lemma_part_exists(s: StateView, r: int, y: int)
    requires
        y >= 0,
    ensures
        s.part_at(r, y) matches Some((row, part)) ==> s.visible_log(row) is Some && 0 <= part < wrap::chunks_of(
            s.visible_log(row)->0.content,
            s.wrap_width(s.visible_log(row)->0),
        ).len(),
    decreases s.visible_count() - r,
{
    if 0 <= r < s.visible_count() {
        match s.visible_log(r) {
            None => lemma_part_exists(s, r + 1, y),
            Some(l) => {
                let n = wrap::chunks_of(l.content, s.wrap_width(l)).len();
                if y >= n {
                    lemma_part_exists(s, r + 1, y - n);
                }
            },
        }
    }
}

} // verus!
