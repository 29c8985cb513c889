//! What of a state can be measured and dated. A line is measured by its tag, which
//! has to be cut out of the name of its service, and dated by its timestamp; each
//! is asked only of the lines that are looked at.

use super::view::{self, StateView, VisualMode};
use super::AppState;
use crate::arith::{self, max_of, min_of, sum_up_to};
use crate::logitem::{self, LogItem, LogView};
use crate::query::{self, pipeline};
use crate::wrap;
use vstd::prelude::*;

verus! {

/// Whether the dates that are looked at for the latest one, from the last of the
/// first `n` lines back to the first that gives a time, can be turned into seconds.
pub open spec fn times_fit(logs: Seq<LogView>, n: int) -> bool
    decreases n,
{
    if !(0 < n <= logs.len()) {
        true
    } else {
        pipeline::date_fits(logs[n - 1]) && (pipeline::log_secs(logs[n - 1]) is None ==> times_fit(logs, n - 1))
    }
}

impl StateView {
    /// Whether the line in a visible row, if there is one, can be measured.
    pub open spec fn fits_at(self, row: int) -> bool {
        self.visible_log(row) matches Some(l) ==> view::showable(l)
    }

    /// Whether the lines in the visible rows from `a` to before `b` can be measured.
    pub open spec fn fit_between(self, a: int, b: int) -> bool {
        forall|r: int| a <= r < b ==> #[trigger] self.fits_at(r)
    }

    /// Whether the latest time can be read off the lines.
    pub open spec fn times_fit(self) -> bool {
        times_fit(self.logs, self.logs.len() as int)
    }

    // -- Motions ------------------------------------------------------------

    /// Whether the lines can be measured that the scroll is set by, with the cursor in `row`.
    pub open spec fn scroll_fits(self, row: int) -> bool {
        self.viewport_height > 0 && self.visible_count() > 0 && !self.line_fold && self.scroll_offset <= row
            ==> self.fit_between(self.scroll_offset, row + 1)
    }

    /// Whether the cursor can be put into `row`.
    pub open spec fn row_fits(self, row: int) -> bool {
        self.scroll_fits(row) && self.fits_at(row)
    }

    pub open spec fn down_fits(self, amount: int) -> bool {
        self.visible_count() > 0 ==> self.row_fits(arith::lesser(self.cursor_row + amount, self.visible_count() - 1))
    }

    pub open spec fn up_fits(self, amount: int) -> bool {
        self.row_fits(arith::less(self.cursor_row, amount))
    }

    pub open spec fn left_fits(self) -> bool {
        self.cursor_col > 0 && self.line_fold ==> self.fits_at(self.cursor_row)
    }

    pub open spec fn bottom_fits(self) -> bool {
        self.visible_count() > 0 ==> self.row_fits(self.visible_count() - 1)
    }

    /// Whether the lines above row `off` can be measured, as far as there is room for them.
    pub open spec fn back_fits(self, off: int, room: int) -> bool
        decreases off,
    {
        if off > 0 && room > 0 && self.visible_log(off - 1) is Some {
            self.fits_at(off - 1) && (room >= self.height_of(off - 1) ==> self.back_fits(
                off - 1,
                room - self.height_of(off - 1),
            ))
        } else {
            true
        }
    }

    pub open spec fn fold_fits(self) -> bool {
        self.visible_count() > 0 ==> if self.line_fold {
            self.back_fits(self.cursor_row, self.cursor_screen_row())
        } else {
            self.fit_between(self.scroll_offset, self.cursor_row) && self.fits_at(self.cursor_row)
        }
    }

    /// Whether every line of the log can be measured.
    pub open spec fn all_fit(self) -> bool {
        view::all_showable(self.logs)
    }

    // -- The screen ---------------------------------------------------------

    /// Whether the lines from row `r` on can be measured, down to the row of the
    /// screen that is looked for.
    pub open spec fn part_fits(self, r: int, y: int) -> bool
        decreases self.visible_count() - r,
    {
        if !(0 <= r < self.visible_count()) {
            true
        } else {
            match self.visible_log(r) {
                None => self.part_fits(r + 1, y),
                Some(l) => {
                    let n = wrap::chunks_of(l.content, self.wrap_width(l)).len();
                    view::showable(l) && (y >= n ==> self.part_fits(r + 1, y - n))
                },
            }
        }
    }

    /// Whether the text under row `y` of the screen can be found.
    pub open spec fn point_fits(self, y: int) -> bool {
        self.visible_count() > 0 ==> if self.line_fold {
            self.fits_at(self.folded_row(y))
        } else {
            self.part_fits(self.scroll_offset, y)
        }
    }

    pub open spec fn rows_scroll_fits(self, my: int) -> bool {
        let h = self.viewport_height % 65536;
        if my < 5 {
            self.up_fits(
                if my == 0 {
                    2
                } else {
                    1
                },
            )
        } else if my >= arith::less(h, 5) {
            self.down_fits(
                if my >= arith::less(h, 1) {
                    2
                } else {
                    1
                },
            )
        } else {
            true
        }
    }

    pub open spec fn cols_scroll_fits(self, mx: int) -> bool {
        let w = self.viewport_width % 65536;
        if mx < 5 {
            self.left_fits()
        } else if mx >= arith::less(w, 5) {
            self.fits_at(self.cursor_row)
        } else {
            true
        }
    }

    /// Whether the lines can be measured that a drag at the edge of the screen looks at.
    pub open spec fn auto_fits(self) -> bool {
        self.auto_scrolls() ==> {
            let (mx, my) = self.last_mouse_pos->0;
            let a = self.rows_scrolled(my as int);
            &&& self.rows_scroll_fits(my as int)
            &&& a.cols_scroll_fits(mx as int)
            &&& a.cols_scrolled(mx as int).point_fits(my as int)
        }
    }

    /// What a drag at the edge has moved by the time it meets a line that cannot be measured.
    pub open spec fn auto_begun(self) -> StateView {
        let (mx, my) = self.last_mouse_pos->0;
        let a = self.rows_scrolled(my as int);
        if !self.rows_scroll_fits(my as int) {
            self
        } else if !a.cols_scroll_fits(mx as int) {
            a
        } else {
            a.cols_scrolled(mx as int)
        }
    }

    // -- Selection ----------------------------------------------------------

    /// Whether the marked lines can be measured.
    pub open spec fn marked_fit(self) -> bool {
        forall|i: int|
            0 <= i < self.logs.len() && self.toggled_lines.contains(i as usize) ==> view::showable(
                #[trigger] self.logs[i],
            )
    }

    /// Whether the lines to copy can be measured.
    pub open spec fn selection_fits(self) -> bool {
        if !self.toggled_lines.is_empty() {
            self.marked_fit()
        } else if self.visual_anchor is None || self.visual_mode == VisualMode::Off {
            true
        } else {
            let a = (self.visual_anchor->0).0 as int;
            self.fit_between(arith::lesser(a, self.cursor_row), arith::greater(a, self.cursor_row) + 1)
        }
    }

    // -- Lines coming in ----------------------------------------------------

    /// Whether the lines can be measured that are looked at in following a new line.
    pub open spec fn follow_fits(self, was_at_bottom: bool) -> bool {
        self.visual_mode == VisualMode::Off && was_at_bottom ==> self.bottom_fits()
    }
}

/// States with the same lines in the same rows have the same lines that can be measured.
pub proof fn lemma_same_lines(a: StateView, b: StateView)
    requires
        a.logs == b.logs,
        a.visible_indices == b.visible_indices,
        a.synthetic_logs == b.synthetic_logs,
    ensures
        forall|r: int| #[trigger] a.fits_at(r) == b.fits_at(r),
        forall|r: int| a.fits_at(r) == #[trigger] b.fits_at(r),
        forall|r: int| a.visible_log(r) == #[trigger] b.visible_log(r),
        a.visible_count() == b.visible_count(),
{
    assert(forall|r: int| a.visible_log(r) == #[trigger] b.visible_log(r));
    assert forall|r: int| #[trigger] a.fits_at(r) == b.fits_at(r) by {
        assert(a.visible_log(r) == b.visible_log(r));
    }
    assert forall|r: int| a.fits_at(r) == #[trigger] b.fits_at(r) by {
        assert(a.visible_log(r) == b.visible_log(r));
    }
}

proof fn lemma_forward_bounds(s: StateView, off: int, total: int)
    requires
        off <= s.cursor_row,
    ensures
        off <= s.forward_from(off, total) <= s.cursor_row,
    decreases s.cursor_row - off,
{
    if off < s.cursor_row && total > s.viewport_height {
        lemma_forward_bounds(s, off + 1, arith::less(total, s.height_of(off)));
    }
}

/// Setting the scroll leaves all else as it is, and asks for no line more.
pub proof fn lemma_v_adjusted(s: StateView)
    ensures
        s.v_adjusted() == (StateView { scroll_offset: s.v_adjusted().scroll_offset, ..s }),
        s.row_fits(s.cursor_row) ==> s.v_adjusted().row_fits(s.cursor_row),
{
    reveal(StateView::v_adjusted);
    lemma_same_lines(s, s.v_adjusted());
    if s.viewport_height != 0 && s.visible_count() != 0 && !s.line_fold && s.cursor_row >= s.scroll_offset {
        lemma_forward_bounds(s, s.scroll_offset, s.height_between(s.scroll_offset, s.cursor_row + 1));
    }
}

proof fn lemma_back_fits(s: StateView, off: int, room: int)
    requires
        forall|r: int| #[trigger] s.fits_at(r),
    ensures
        s.back_fits(off, room),
    decreases off,
{
    if off > 0 && room > 0 && s.visible_log(off - 1) is Some {
        lemma_back_fits(s, off - 1, room - s.height_of(off - 1));
    }
}

proof fn lemma_part_fits(s: StateView, r: int, y: int)
    requires
        forall|r: int| #[trigger] s.fits_at(r),
    ensures
        s.part_fits(r, y),
    decreases s.visible_count() - r,
{
    if 0 <= r < s.visible_count() {
        assert(s.fits_at(r));
        match s.visible_log(r) {
            None => lemma_part_fits(s, r + 1, y),
            Some(l) => lemma_part_fits(s, r + 1, y - wrap::chunks_of(l.content, s.wrap_width(l)).len()),
        }
    }
}

/// Where every line can be measured, the cursor can be moved, the screen be pointed
/// at and the selection be copied, whatever the rest of the state.
pub proof fn law_measurable_lines_suffice(s: StateView, amount: int, row: int)
    requires
        s.all_fit(),
        s.synthetic_logs matches Some(l) ==> view::all_showable(l),
    ensures
        s.fits_at(row),
        s.row_fits(row),
        s.down_fits(amount),
        s.up_fits(amount),
        s.left_fits(),
        s.bottom_fits(),
        s.fold_fits(),
        s.point_fits(row),
        s.selection_fits(),
        s.follow_fits(s.at_bottom()),
{
    assert(forall|r: int| #[trigger] s.fits_at(r));
    lemma_back_fits(s, s.cursor_row, s.cursor_screen_row());
    lemma_part_fits(s, s.scroll_offset, row);
}

/// Whether a line can be measured.
pub fn item_showable(item: &LogItem) -> (r: bool)
    ensures
        r == view::showable(item@),
{
    if !item.is_system && !logitem::can_truncate(item.service.as_str(), 16) {
        return false;
    }
    let n: usize = item.prefix_len();
    let m: usize = item.content.as_str().unicode_len();
    m < usize::MAX - n
}

/// Whether a line's date, if it has one, can be turned into seconds.
pub fn item_dated(item: &LogItem) -> (r: bool)
    ensures
        r == pipeline::date_fits(item@),
{
    match &item.timestamp {
        Some(ts) => query::time::timestamp_in_range(ts.as_str()),
        None => true,
    }
}

impl AppState {
    /// Whether the line in a visible row, if there is one, can be measured.
    pub fn can_measure(&self, row: usize) -> (r: bool)
        ensures
            r == self@.fits_at(row as int),
    {
        match self.get_visible_log(row) {
            Some(l) => item_showable(l),
            None => true,
        }
    }

    /// Whether the lines in the visible rows from `a` to before `b` can be measured.
    pub fn can_measure_rows(&self, a: usize, b: usize) -> (r: bool)
        ensures
            r == self@.fit_between(a as int, b as int),
    {
        let mut row: usize = a;
        while row < b
            invariant
                self@.fit_between(a as int, row as int),
                a <= row,
            decreases b - row,
        {
            if !self.can_measure(row) {
                assert(!self@.fits_at(row as int));
                return false;
            }
            row += 1;
        }
        true
    }

    /// Whether the latest time can be read off the lines.
    pub fn can_tell_time(&self) -> (r: bool)
        ensures
            r == self@.times_fit(),
    {
        let mut n: usize = self.logs.len();
        while n > 0
            invariant
                n <= self.logs@.len(),
                self@.times_fit() == times_fit(self@.logs, n as int),
            decreases n,
        {
            assert(self@.logs[n - 1] == self.logs@[n - 1]@);
            let log = &self.logs[n - 1];
            if !item_dated(log) {
                return false;
            }
            match &log.timestamp {
                Some(ts) => {
                    if query::parse_timestamp_secs(ts.as_str()).is_some() {
                        return true;
                    }
                },
                None => {},
            }
            n -= 1;
        }
        true
    }

    /// Whether the cursor can be put into `row`.
    pub fn can_enter(&self, row: usize) -> (r: bool)
        ensures
            r == self@.row_fits(row as int),
    {
        if !self.can_measure(row) {
            return false;
        }
        if self.viewport_height > 0 && self.visible_count() > 0 && !self.line_fold && self.scroll_offset <= row {
            let above: bool = self.can_measure_rows(self.scroll_offset, row);
            assert(above == self@.fit_between(self@.scroll_offset, row + 1)) by {
                assert(self@.fits_at(row as int));
                if self@.fit_between(self@.scroll_offset, row + 1) {
                    assert(self@.fit_between(self@.scroll_offset, row as int));
                }
            }
            above
        } else {
            true
        }
    }

    pub fn can_move_down(&self, amount: usize) -> (r: bool)
        ensures
            r == self@.down_fits(amount as int),
    {
        let count: usize = self.visible_count();
        count == 0 || self.can_enter(sum_up_to(self.cursor_row, amount, count - 1))
    }

    pub fn can_move_up(&self, amount: usize) -> (r: bool)
        ensures
            r == self@.up_fits(amount as int),
    {
        self.can_enter(self.cursor_row.saturating_sub(amount))
    }

    pub fn can_move_left(&self) -> (r: bool)
        ensures
            r == self@.left_fits(),
    {
        self.cursor_col == 0 || !self.line_fold || self.can_measure(self.cursor_row)
    }

    pub fn can_move_to_bottom(&self) -> (r: bool)
        ensures
            r == self@.bottom_fits(),
    {
        let count: usize = self.visible_count();
        count == 0 || self.can_enter(count - 1)
    }

    pub fn can_toggle_fold(&self) -> (r: bool)
        ensures
            r == self@.fold_fits(),
    {
        if self.visible_count() == 0 {
            return true;
        }
        if !self.line_fold {
            return self.can_measure_rows(self.scroll_offset, self.cursor_row) && self.can_measure(self.cursor_row);
        }
        let mut room: usize = min_of(
            self.cursor_row.saturating_sub(self.scroll_offset),
            self.viewport_height.saturating_sub(1),
        );
        let mut off: usize = self.cursor_row;
        while off > 0 && room > 0
            invariant
                self@.line_fold,
                self@.visible_count() > 0,
                self@.back_fits(self@.cursor_row, self@.cursor_screen_row()) == self@.back_fits(
                    off as int,
                    room as int,
                ),
            decreases off,
        {
            if self.get_visible_log(off - 1).is_none() {
                return true;
            }
            if !self.can_measure(off - 1) {
                return false;
            }
            let h: usize = self.height_of(off - 1);
            if room < h {
                return true;
            }
            room -= h;
            off -= 1;
        }
        true
    }

    /// Whether every line of the log can be measured.
    pub fn can_measure_all(&self) -> (r: bool)
        ensures
            r == self@.all_fit(),
    {
        let mut i: usize = 0;
        while i < self.logs.len()
            invariant
                i <= self.logs@.len(),
                forall|j: int| 0 <= j < i ==> view::showable(#[trigger] self@.logs[j]),
            decreases self.logs@.len() - i,
        {
            assert(self@.logs[i as int] == self.logs@[i as int]@);
            if !item_showable(&self.logs[i]) {
                return false;
            }
            i += 1;
        }
        true
    }

    /// Whether the lines from the scroll on can be measured, down to row `y` of the screen.
    fn can_find_part(&self, y: usize) -> (r: bool)
        ensures
            r == self@.part_fits(self@.scroll_offset, y as int),
    {
        let count: usize = self.visible_count();
        let mut row: usize = self.scroll_offset;
        let mut left: usize = y;
        while row < count
            invariant
                count == self@.visible_count(),
                self@.part_fits(self@.scroll_offset, y as int) == self@.part_fits(row as int, left as int),
            decreases count - row,
        {
            match self.get_visible_log(row) {
                Some(l) => {
                    if !item_showable(l) {
                        return false;
                    }
                    proof {
                        wrap::law_rows_are_chunks(l@.content, self@.wrap_width(l@));
                    }
                    let h: usize = self.height_of(row);
                    if left < h {
                        return true;
                    }
                    left -= h;
                },
                None => {},
            }
            row += 1;
        }
        true
    }

    /// Whether the text under row `y` of the screen can be found.
    pub fn can_point(&self, y: usize) -> (r: bool)
        ensures
            r == self@.point_fits(y as int),
    {
        let count: usize = self.visible_count();
        if count == 0 {
            true
        } else if self.line_fold {
            self.can_measure(sum_up_to(self.scroll_offset, y, count - 1))
        } else {
            self.can_find_part(y)
        }
    }

    fn can_measure_marked(&self) -> (r: bool)
        ensures
            r == self@.marked_fit(),
    {
        broadcast use vstd::std_specs::hash::group_hash_axioms;

        let mut i: usize = 0;
        while i < self.logs.len()
            invariant
                i <= self.logs@.len(),
                forall|j: int|
                    0 <= j < i && self@.toggled_lines.contains(j as usize) ==> view::showable(
                        #[trigger] self@.logs[j],
                    ),
            decreases self.logs@.len() - i,
        {
            assert(self@.logs[i as int] == self.logs@[i as int]@);
            if self.toggled_lines.contains(&i) && !item_showable(&self.logs[i]) {
                return false;
            }
            i += 1;
        }
        true
    }

    /// Whether the lines to copy can be measured.
    pub fn can_copy(&self) -> (r: bool)
        ensures
            r == self@.selection_fits(),
    {
        if !self.toggled_lines.is_empty() {
            return self.can_measure_marked();
        }
        match self.visual_anchor {
            Some((anchor_row, _)) => {
                if self.visual_mode == VisualMode::Off {
                    return true;
                }
                let from: usize = min_of(anchor_row, self.cursor_row);
                let to: usize = max_of(anchor_row, self.cursor_row);
                let last: bool = self.can_measure(to);
                let others: bool = self.can_measure_rows(from, to);
                assert((last && others) == self@.fit_between(from as int, to + 1)) by {
                    if self@.fit_between(from as int, to + 1) {
                        assert(self@.fits_at(to as int));
                        assert(self@.fit_between(from as int, to as int));
                    }
                }
                last && others
            },
            None => true,
        }
    }
}

} // verus!
