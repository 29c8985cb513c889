//! Where the motions take the cursor, and what they show.

use super::laws;
use super::view::{self, StateView};
use crate::arith;
use crate::logitem::LogView;
use crate::query::pipeline;
use crate::text::{self, Class};
use crate::wrap;
use vstd::prelude::*;

verus! {

// ---------------------------------------------------------------------------
// Rows and columns
// ---------------------------------------------------------------------------

/// Moving up or down by so many rows moves by so many, as far as there are rows, and
/// by none where there are no lines. The column is kept as far as the new line reaches.
pub proof fn law_rows_moved(s: StateView, amount: int)
    requires
        0 <= s.cursor_row,
        0 <= amount,
    ensures
        s.visible_count() > 0 && s.cursor_row + amount < s.visible_count() ==> s.moved_down(amount).cursor_row
            - s.cursor_row == amount,
        s.visible_count() > 0 && s.cursor_row + amount >= s.visible_count() ==> s.moved_down(amount).cursor_row
            == s.visible_count() - 1,
        s.visible_count() == 0 ==> s.moved_down(amount) == s,
        amount <= s.cursor_row ==> s.cursor_row - s.moved_up(amount).cursor_row == amount,
        amount > s.cursor_row ==> s.moved_up(amount).cursor_row == 0,
{
    reveal(StateView::v_adjusted);
}

/// Behind a move to another row the cursor stands on a column of its line: on the
/// column it had, or on the last one where the line is shorter.
pub proof fn law_column_kept(s: StateView, amount: int)
    requires
        s.visible_count() > 0,
    ensures
        ({
            let t = s.moved_down(amount);
            t.visible_log(t.cursor_row) matches Some(l) ==> l.content.len() > 0 ==> t.cursor_col == (if s.cursor_col
                < l.full_line().len() {
                s.cursor_col
            } else {
                l.full_line().len() - 1
            })
        }),
        ({
            let t = s.moved_up(amount);
            t.visible_log(t.cursor_row) matches Some(l) ==> l.content.len() > 0 ==> t.cursor_col == (if s.cursor_col
                < l.full_line().len() {
                s.cursor_col
            } else {
                l.full_line().len() - 1
            })
        }),
{
    reveal(StateView::v_adjusted);
    let d = StateView { cursor_row: arith::lesser(s.cursor_row + amount, s.visible_count() - 1), ..s }.v_adjusted();
    let u = StateView { cursor_row: arith::less(s.cursor_row, amount), ..s }.v_adjusted();
    assert(s.moved_down(amount).visible_log(d.cursor_row) == d.visible_log(d.cursor_row));
    assert(s.moved_up(amount).visible_log(u.cursor_row) == u.visible_log(u.cursor_row));
}

/// Moving left or right moves by so many columns, as far as the line reaches, and
/// stays in the row.
pub proof fn law_columns_moved(s: StateView, amount: int)
    requires
        0 <= amount,
        0 <= s.cursor_col,
    ensures
        s.moved_left(amount).cursor_row == s.cursor_row,
        s.moved_right(amount).cursor_row == s.cursor_row,
        amount <= s.cursor_col ==> s.cursor_col - s.moved_left(amount).cursor_col == amount,
        amount > s.cursor_col ==> s.moved_left(amount).cursor_col == 0,
        s.visible_log(s.cursor_row) matches Some(l) ==> l.content.len() > 0 && s.cursor_col < l.full_line().len()
            ==> s.moved_right(amount).cursor_col == (if s.cursor_col + amount < l.full_line().len() {
            s.cursor_col + amount
        } else {
            l.full_line().len() - 1
        }),
{
    reveal(StateView::h_adjusted);
}

/// Where lines are cut, the column of the cursor is in the window that is shown.
pub proof fn law_column_in_window(s: StateView)
    requires
        s.line_fold,
        s.h_scrolloff >= 0,
        s.h_scroll >= 0,
        s.prefix_at(s.cursor_row) <= s.cursor_col,
        s.cursor_col - s.prefix_at(s.cursor_row) < s.max_content(),
        s.viewport_width - s.prefix_at(s.cursor_row) > 2,
        s.prefix_at(s.cursor_row) >= 0,
    ensures
        ({
            let t = s.h_adjusted();
            let window = s.viewport_width - s.prefix_at(s.cursor_row) - 2;
            let col = s.cursor_col - s.prefix_at(s.cursor_row);
            t.h_scroll <= col < t.h_scroll + window
        }),
        s.h_adjusted() == (StateView { h_scroll: s.h_adjusted().h_scroll, ..s }),
{
    reveal(StateView::h_adjusted);
}

// ---------------------------------------------------------------------------
// Margins
// ---------------------------------------------------------------------------

/// Where lines are cut, a margin is kept above and below the cursor, half the screen
/// at most, unless the log begins or ends there; and where it is kept, the view stays.
pub proof fn law_margins_kept(s: StateView)
    requires
        s.line_fold,
        s.viewport_height > 0,
        0 <= s.cursor_row < s.visible_count(),
        s.scroll_offset >= 0,
        s.scrolloff >= 0,
    ensures
        ({
            let t = s.v_adjusted();
            let margin = if 2 * s.scrolloff < s.viewport_height {
                s.scrolloff
            } else {
                (s.viewport_height - 1) / 2
            };
            let end = t.scroll_offset + t.viewport_height;
            &&& t.cursor_row == s.cursor_row
            &&& t.cursor_row - t.scroll_offset >= margin || t.scroll_offset == 0
            &&& end - 1 - t.cursor_row >= margin || end >= s.visible_count()
            &&& end <= s.visible_count() || t.scroll_offset == 0
            &&& s.cursor_row - s.scroll_offset >= margin && s.scroll_offset + s.viewport_height - 1 - s.cursor_row
                >= margin && s.scroll_offset + s.viewport_height <= s.visible_count() ==> t == s
        }),
        s.v_adjusted().v_adjusted() == s.v_adjusted(),
{
    reveal(StateView::v_adjusted);
}

/// Where lines are wrapped, a view that shows the cursor's row stays.
pub proof fn law_view_stays_when_wrapped(s: StateView)
    requires
        !s.line_fold,
        0 <= s.scroll_offset <= s.cursor_row,
        s.height_between(s.scroll_offset, s.cursor_row + 1) <= s.viewport_height,
    ensures
        s.v_adjusted() == s,
{
    reveal(StateView::v_adjusted);
}

// ---------------------------------------------------------------------------
// Words
// ---------------------------------------------------------------------------

/// What a character is to a word: a blank, a letter or a mark.
pub open spec fn kind(c: char) -> int {
    if text::whitespace(c) {
        0
    } else if text::alphanumeric(c) || c == '_' {
        1
    } else {
        2
    }
}

/// Whether no blank of a text counts as a letter.
pub open spec fn blanks_are_no_letters(s: Seq<char>) -> bool {
    forall|i: int| 0 <= i < s.len() && text::whitespace(#[trigger] s[i]) ==> !text::alphanumeric(s[i])
}

/// Whether a word begins at a place: no blank stands there, and what stands before it
/// is of another kind.
pub open spec fn begins(s: Seq<char>, i: int) -> bool {
    0 <= i < s.len() && kind(s[i]) != 0 && (i == 0 || kind(s[i - 1]) != kind(s[i]))
}

/// Whether a word ends at a place: no blank stands there, and what stands behind it is
/// of another kind.
pub open spec fn finishes(s: Seq<char>, i: int) -> bool {
    0 <= i < s.len() && kind(s[i]) != 0 && (i + 1 == s.len() || kind(s[i + 1]) != kind(s[i]))
}

proof fn lemma_kinds(s: Seq<char>, i: int)
    requires
        blanks_are_no_letters(s),
        0 <= i < s.len(),
    ensures
        Class::Space.has(s[i]) == (kind(s[i]) == 0),
        Class::Word.has(s[i]) == (kind(s[i]) == 1),
        Class::Punct.has(s[i]) == (kind(s[i]) == 2),
{
    assert(text::whitespace(s[i]) ==> !text::alphanumeric(s[i]));
}

/// The next word is the one that begins first behind the place, or there is none.
pub proof fn law_next_word_begins_first(s: Seq<char>, i: int)
    requires
        0 <= i < s.len(),
        blanks_are_no_letters(s),
    ensures
        ({
            let j = view::next_word(s, i);
            &&& i < j <= s.len()
            &&& j < s.len() ==> begins(s, j)
            &&& forall|k: int| i < k < j ==> !begins(s, k)
        }),
{
    let j = view::next_word(s, i);
    assert forall|k: int| 0 <= k < s.len() implies Class::Space.has(#[trigger] s[k]) == (kind(s[k]) == 0)
        && Class::Word.has(s[k]) == (kind(s[k]) == 1) && Class::Punct.has(s[k]) == (kind(s[k]) == 2) by {
        lemma_kinds(s, k);
    }
    if kind(s[i]) == 0 {
        text::lemma_run_end(s, i, Class::Space);
    } else {
        let c = if kind(s[i]) == 1 {
            Class::Word
        } else {
            Class::Punct
        };
        let e = text::run_end(s, i, c);
        text::lemma_run_end(s, i, c);
        text::lemma_run_end(s, e, Class::Space);
        assert(kind(s[i]) == 1 ==> Class::Word.has(s[i]));
        assert(e > i);
        assert forall|k: int| i < k < j implies !begins(s, k) by {
            if k < e {
                assert(c.has(s[k]) && c.has(s[k - 1]));
            } else {
                assert(Class::Space.has(s[k]));
            }
        }
        if j < s.len() {
            if j > e {
                assert(Class::Space.has(s[j - 1]));
            } else {
                assert(c.has(s[j - 1]));
                assert(!c.has(s[j]));
            }
        }
    }
}

/// The word before a place is the one that begins last at or before it.
pub proof fn law_word_start_begins_last(s: Seq<char>, i: int)
    requires
        0 <= i < s.len(),
        blanks_are_no_letters(s),
    ensures
        ({
            let j = view::word_start(s, i);
            &&& 0 <= j <= i
            &&& begins(s, j) || (j == 0 && kind(s[0]) == 0)
            &&& forall|k: int| j < k <= i ==> !begins(s, k)
        }),
{
    assert forall|k: int| 0 <= k < s.len() implies Class::Space.has(#[trigger] s[k]) == (kind(s[k]) == 0)
        && Class::Word.has(s[k]) == (kind(s[k]) == 1) && Class::Punct.has(s[k]) == (kind(s[k]) == 2) by {
        lemma_kinds(s, k);
    }
    let b = text::run_start(s, i + 1, Class::Space);
    text::lemma_run_start(s, i + 1, Class::Space);
    let k = arith::less(b, 1);
    let j = view::word_start(s, i);
    if b > 0 {
        let c = if kind(s[k]) == 1 {
            Class::Word
        } else {
            Class::Punct
        };
        text::lemma_run_start(s, k, c);
        assert(c.has(s[k]));
        assert forall|m: int| j < m <= i implies !begins(s, m) by {
            if m > k {
                assert(Class::Space.has(s[m]));
            } else {
                assert(c.has(s[m - 1]));
                if m < k {
                    assert(c.has(s[m]));
                }
            }
        }
        if j < k {
            assert(c.has(s[j]));
        }
        if j > 0 {
            assert(!c.has(s[j - 1]));
        }
    } else {
        assert(Class::Space.has(s[0]));
        assert forall|m: int| j < m <= i implies !begins(s, m) by {
            assert(Class::Space.has(s[m]));
        }
    }
}

/// The end of a word is the first one at or behind the place, or there is none.
pub proof fn law_word_stop_finishes_first(s: Seq<char>, i: int)
    requires
        0 <= i <= s.len(),
        blanks_are_no_letters(s),
    ensures
        view::word_stop(s, i) matches Some(j) ==> i <= j < s.len() && finishes(s, j) && forall|k: int|
            i <= k < j ==> !finishes(s, k),
        view::word_stop(s, i) is None ==> forall|k: int| i <= k < s.len() ==> !finishes(s, k),
{
    assert forall|k: int| 0 <= k < s.len() implies Class::Space.has(#[trigger] s[k]) == (kind(s[k]) == 0)
        && Class::Word.has(s[k]) == (kind(s[k]) == 1) && Class::Punct.has(s[k]) == (kind(s[k]) == 2) by {
        lemma_kinds(s, k);
    }
    let k = text::run_end(s, i, Class::Space);
    text::lemma_run_end(s, i, Class::Space);
    if k < s.len() {
        let c = if kind(s[k]) == 1 {
            Class::Word
        } else {
            Class::Punct
        };
        let e = text::run_end(s, k + 1, c);
        text::lemma_run_end(s, k + 1, c);
        assert(c.has(s[k]));
        let j = e - 1;
        assert forall|m: int| i <= m < j implies !finishes(s, m) by {
            if m < k {
                assert(Class::Space.has(s[m]));
            } else {
                assert(c.has(s[m + 1]));
                if m > k {
                    assert(c.has(s[m]));
                }
            }
        }
        if j > k {
            assert(c.has(s[j]));
        }
        if e < s.len() {
            assert(!c.has(s[e]));
        }
    } else {
        assert forall|m: int| i <= m < s.len() implies !finishes(s, m) by {
            assert(Class::Space.has(s[m]));
        }
    }
}

/// The motions by words go to where the next word begins, where the one before
/// begins, and where the next one ends, and stay in the row.
pub proof fn law_word_motions(s: StateView)
    requires
        0 <= s.cursor_col,
    ensures
        s.moved_word_forward().cursor_row == s.cursor_row,
        s.moved_word_backward().cursor_row == s.cursor_row,
        s.moved_word_end().cursor_row == s.cursor_row,
        s.visible_log(s.cursor_row) matches Some(l) ==> {
            let line = l.full_line();
            &&& s.cursor_col < line.len() - 1 ==> s.moved_word_forward().cursor_col == arith::lesser(
                view::next_word(line, s.cursor_col),
                line.len() - 1,
            )
            &&& 0 < s.cursor_col <= line.len() ==> s.moved_word_backward().cursor_col == view::word_start(
                line,
                s.cursor_col - 1,
            )
            &&& s.cursor_col < line.len() - 1 ==> s.moved_word_end().cursor_col == (match view::word_stop(
                line,
                s.cursor_col + 1,
            ) {
                Some(j) => j,
                None => s.cursor_col,
            })
            &&& s.cursor_col >= line.len() - 1 ==> s.moved_word_forward() == s && s.moved_word_end() == s
        },
{
    reveal(StateView::h_adjusted);
}

// ---------------------------------------------------------------------------
// Wrapping
// ---------------------------------------------------------------------------

/// Wrapping is switched on and off, nothing of what is shown changes, and the cursor
/// stays as far below the top of the screen as it was, or comes nearer to it.
pub proof fn law_fold_switched(s: StateView)
    requires
        0 <= s.scroll_offset <= s.cursor_row,
        s.viewport_height > 0,
        s.viewport_width >= 0,
    ensures
        s.fold_toggled().line_fold == !s.line_fold,
        s.fold_toggled().cursor_row == s.cursor_row,
        s.fold_toggled().cursor_col == s.cursor_col,
        s.fold_toggled().visible_indices == s.visible_indices,
        s.line_fold && s.visible_count() > 0 ==> s.fold_toggled().h_scroll == 0,
        s.visible_count() > 0 && !s.line_fold && s.cursor_screen_row() <= s.cursor_row
            ==> s.fold_toggled().cursor_screen_row() == s.cursor_screen_row(),
        s.visible_count() > 0 && s.line_fold ==> s.fold_toggled().cursor_screen_row() <= s.cursor_screen_row(),
{
    reveal(StateView::fold_toggled);
    reveal(StateView::h_adjusted);
    laws::lemma_heights(s);
    laws::lemma_height_pos(s, s.scroll_offset, s.cursor_row);
    if s.visible_count() > 0 && s.line_fold {
        let y = s.cursor_screen_row();
        let f = StateView { line_fold: false, ..s };
        let t = s.fold_toggled();
        lemma_back_height(f, s.cursor_row, y);
        lemma_same_height(f, t, t.scroll_offset, t.cursor_row);
    }
}

proof fn lemma_back_height(s: StateView, off: int, room: int)
    requires
        room >= 0,
        off >= 0,
    ensures
        0 <= s.back_from(off, room) <= off,
        s.height_between(s.back_from(off, room), off) <= room,
    decreases off,
{
    if off > 0 && room > 0 && s.visible_log(off - 1) is Some && room >= s.height_of(off - 1) {
        let h = s.height_of(off - 1);
        lemma_back_height(s, off - 1, room - h);
        let b = s.back_from(off - 1, room - h);
        assert(s.height_between(b, off) == s.height_between(b, off - 1) + h);
    }
}

proof fn lemma_same_height(s: StateView, t: StateView, a: int, b: int)
    requires
        t.logs == s.logs,
        t.visible_indices == s.visible_indices,
        t.synthetic_logs == s.synthetic_logs,
        t.viewport_width == s.viewport_width,
    ensures
        s.height_between(a, b) == t.height_between(a, b),
    decreases b - a,
{
    if a < b {
        lemma_same_height(s, t, a, b - 1);
        assert(s.visible_log(b - 1) == t.visible_log(b - 1));
    }
}

// ---------------------------------------------------------------------------
// Marks and modes
// ---------------------------------------------------------------------------

/// A selection begins at the cursor; choosing its mode again ends it, choosing
/// another begins anew.
pub proof fn law_modes_toggle(s: StateView, mode: view::VisualMode)
    requires
        mode != view::VisualMode::Off,
        0 <= s.cursor_row <= usize::MAX,
        0 <= s.cursor_col <= usize::MAX,
    ensures
        s.visual_mode != mode ==> s.mode_toggled(mode).visual_mode == mode && s.mode_toggled(mode).visual_anchor
            == Some((s.cursor_row as usize, s.cursor_col as usize)) && s.mode_toggled(mode).cursor_row == s.cursor_row,
        s.visual_mode != mode ==> s.mode_toggled(mode).mode_toggled(mode).visual_mode == view::VisualMode::Off
            && s.mode_toggled(mode).mode_toggled(mode).visual_anchor is None,
        s.mode_left().visual_mode == view::VisualMode::Off && s.mode_left().visual_anchor is None
            && !s.mode_left().is_mouse_dragging,
        s.mode_left().toggled_lines == s.toggled_lines && s.mode_left().cursor_row == s.cursor_row,
{
}

/// Marking marks the line under the cursor, or takes its mark away, and leaves the marks
/// of all other lines.
pub proof fn law_mark_is_of_line(s: StateView, row: int)
    requires
        0 <= s.cursor_row < s.visible_indices.len(),
        0 <= row < s.visible_indices.len(),
    ensures
        s.line_toggled().row_toggled(s.cursor_row) == !s.row_toggled(s.cursor_row),
        s.visible_indices[row] != s.visible_indices[s.cursor_row] ==> s.line_toggled().row_toggled(row)
            == s.row_toggled(row),
        s.row_toggled(row) <==> s.toggled_lines.contains(s.visible_indices[row]),
        !s.row_toggled(-1) && !s.row_toggled(s.visible_indices.len() as int),
{
}

// ---------------------------------------------------------------------------
// The text under a cell
// ---------------------------------------------------------------------------

/// Where lines are cut, the row under a cell stands as far below the first row shown
/// as the cell below the top of the screen; below the last row, the last one is meant.
pub proof fn law_row_under_cell_when_cut(s: StateView, x: int, y: int)
    requires
        s.line_fold,
        s.visible_count() > 0,
        s.scroll_offset >= 0,
        y >= 0,
    ensures
        s.scroll_offset + y < s.visible_count() ==> s.pos_at(x, y).0 - s.scroll_offset == y,
        s.scroll_offset + y >= s.visible_count() ==> s.pos_at(x, y).0 == s.visible_count() - 1,
{
    reveal(StateView::pos_at);
}

/// Where lines are wrapped, the row and its part under a cell stand as many rows of
/// the screen below the top as the cell.
pub proof fn law_row_under_cell_when_wrapped(s: StateView, r: int, y: int)
    requires
        0 <= r,
        0 <= y,
        s.viewport_width >= 0,
    ensures
        s.part_at(r, y) matches Some((row, part)) ==> {
            &&& r <= row < s.visible_count()
            &&& 0 <= part < s.height_of(row)
            &&& s.height_between(r, row) + part == y
        },
    decreases s.visible_count() - r,
{
    if r < s.visible_count() {
        match s.visible_log(r) {
            None => {
                law_row_under_cell_when_wrapped(s, r + 1, y);
                if let Some((row, part)) = s.part_at(r + 1, y) {
                    lemma_height_from(s, r, row);
                }
            },
            Some(l) => {
                wrap::law_rows_are_chunks(l.content, s.wrap_width(l));
                let n = s.height_of(r);
                if y >= n {
                    law_row_under_cell_when_wrapped(s, r + 1, y - n);
                    if let Some((row, part)) = s.part_at(r + 1, y - n) {
                        lemma_height_from(s, r, row);
                    }
                }
            },
        }
    }
}

proof fn lemma_height_from(s: StateView, a: int, b: int)
    requires
        a < b,
    ensures
        s.height_between(a, b) == s.height_of(a) + s.height_between(a + 1, b),
    decreases b - a,
{
    if a + 1 < b {
        lemma_height_from(s, a, b - 1);
    } else {
        assert(s.height_between(a, a) == 0);
        assert(s.height_between(a + 1, b) == 0);
    }
}

/// Where lines are cut and not scrolled, the character under a cell beside the tag is
/// the one that covers it: the characters before it end at or before the cell, and it
/// ends behind it. A cell of the tag stands for the start of the line.
pub proof fn law_character_under_cell(s: StateView, l: LogView, x: int)
    requires
        s.h_scroll == 0,
        !l.is_system,
        x >= 0,
    ensures
        ({
            let tag = wrap::width_up_to(l.tag(), l.tag().len() as int);
            let at = s.folded_col(l, x) - l.tag().len();
            &&& x <= tag ==> s.folded_col(l, x) == 0
            &&& x > tag ==> {
                &&& 0 <= at <= l.content.len()
                &&& tag + wrap::width_up_to(l.content, at) <= x
                &&& at < l.content.len() ==> x < tag + wrap::width_up_to(l.content, at + 1)
            }
        }),
{
    let tag = wrap::width_up_to(l.tag(), l.tag().len() as int);
    wrap::lemma_width(l.tag(), l.tag().len() as int);
    if x > tag {
        assert(l.content.skip(0) =~= l.content);
        wrap::law_char_at_is_first_beyond(l.content, x - tag);
        lemma_place_under_cell(l.content, 0, 0, x - tag);
    }
}

proof fn lemma_place_under_cell(s: Seq<char>, i: int, used: int, target: int)
    requires
        0 <= i <= s.len(),
    ensures
        i <= wrap::char_at(s, i, used, target) <= s.len(),
    decreases s.len() - i,
{
    if i < s.len() && used + wrap::width(s[i]) <= target {
        lemma_place_under_cell(s, i + 1, used + wrap::width(s[i]), target);
    }
}

proof fn lemma_same_parts(s: StateView, t: StateView, r: int, y: int, otherwise: int)
    requires
        t.logs == s.logs,
        t.visible_indices == s.visible_indices,
        t.synthetic_logs == s.synthetic_logs,
        t.viewport_width == s.viewport_width,
    ensures
        t.part_at(r, y) == s.part_at(r, y),
        t.last_row(r, otherwise) == s.last_row(r, otherwise),
    decreases s.visible_count() - r,
{
    if 0 <= r < s.visible_count() {
        assert(t.visible_log(r) == s.visible_log(r));
        match s.visible_log(r) {
            None => lemma_same_parts(s, t, r + 1, y, otherwise),
            Some(l) => {
                let n = wrap::chunks_of(l.content, s.wrap_width(l)).len();
                lemma_same_parts(s, t, r + 1, y - n, r);
            },
        }
    }
}

/// A drag near the upper or the lower edge of the screen moves a row that way, two at
/// the very edge; between them it moves no row.
pub proof fn law_edges_scroll_rows(s: StateView, my: int)
    requires
        10 <= s.viewport_height < 65536,
        0 <= my < s.viewport_height,
        0 <= s.cursor_row,
    ensures
        my == 0 && s.cursor_row >= 2 ==> s.rows_scrolled(my).cursor_row == s.cursor_row - 2,
        0 < my < 5 && s.cursor_row >= 1 ==> s.rows_scrolled(my).cursor_row == s.cursor_row - 1,
        5 <= my < s.viewport_height - 5 ==> s.rows_scrolled(my) == s,
        s.viewport_height - 5 <= my < s.viewport_height - 1 && s.cursor_row + 1 < s.visible_count()
            ==> s.rows_scrolled(my).cursor_row == s.cursor_row + 1,
        my == s.viewport_height - 1 && s.cursor_row + 2 < s.visible_count() ==> s.rows_scrolled(my).cursor_row
            == s.cursor_row + 2,
{
    reveal(StateView::v_adjusted);
}

/// A drag near the left or the right edge moves two columns that way, four at the very
/// edge; between them it moves no column.
pub proof fn law_edges_scroll_columns(s: StateView, mx: int)
    requires
        10 <= s.viewport_width < 65536,
        0 <= mx < s.viewport_width,
    ensures
        mx == 0 ==> s.cols_scrolled(mx) == s.moved_left(4),
        0 < mx < 5 ==> s.cols_scrolled(mx) == s.moved_left(2),
        5 <= mx < s.viewport_width - 5 ==> s.cols_scrolled(mx) == s,
        s.viewport_width - 5 <= mx < s.viewport_width - 1 ==> s.cols_scrolled(mx) == s.moved_right(2),
        mx == s.viewport_width - 1 ==> s.cols_scrolled(mx) == s.moved_right(4),
{
}

/// A drag scrolls by itself within five cells of an edge of the screen, and only there.
pub proof fn law_drag_scrolls_at_edges(s: StateView, mx: u16, my: u16)
    requires
        s.is_mouse_dragging,
        s.last_mouse_pos == Some((mx, my)),
        10 <= s.viewport_height < 65536,
        10 <= s.viewport_width < 65536,
    ensures
        s.auto_scrolls() <==> !(5 <= mx < s.viewport_width - 5 && 5 <= my < s.viewport_height - 5),
{
}

/// Without a drag nothing scrolls by itself; where a drag scrolls, the cursor is then on
/// the text under the mouse.
pub proof fn law_cursor_follows_drag(s: StateView)
    ensures
        !s.is_mouse_dragging || s.last_mouse_pos is None ==> s.auto_scrolled() == s,
        s.auto_scrolls() ==> {
            let (mx, my) = s.last_mouse_pos->0;
            let t = s.auto_scrolled();
            t.pos_at(mx as int, my as int) == (t.cursor_row, t.cursor_col)
        },
{
    if s.auto_scrolls() {
        reveal(StateView::pos_at);
        let (mx, my) = s.last_mouse_pos->0;
        let a = s.rows_scrolled(my as int).cols_scrolled(mx as int);
        let t = s.auto_scrolled();
        let count = a.visible_count();
        lemma_same_parts(a, t, a.scroll_offset, my as int, arith::lesser(a.scroll_offset, count - 1));
        let row = a.folded_row(my as int);
        assert(a.visible_log(row) == t.visible_log(row));
        if let Some((r, part)) = a.part_at(a.scroll_offset, my as int) {
            assert(a.visible_log(r) == t.visible_log(r));
        }
    }
}

// ---------------------------------------------------------------------------
// Lines at large
// ---------------------------------------------------------------------------

/// No line is longer than the longest, and one is as long.
pub proof fn law_longest_is_longest(logs: Seq<LogView>, n: int)
    requires
        0 <= n <= logs.len(),
    ensures
        forall|i: int| 0 <= i < n ==> (#[trigger] logs[i]).content.len() <= view::longest_content(logs, n),
        forall|i: int| 0 <= i < n ==> (#[trigger] logs[i]).full_line().len() <= view::longest_line(logs, n),
        n > 0 ==> exists|i: int| 0 <= i < n && (#[trigger] logs[i]).content.len() == view::longest_content(logs, n),
        n > 0 ==> exists|i: int|
            0 <= i < n && (#[trigger] logs[i]).full_line().len() == view::longest_line(logs, n),
    decreases n,
{
    if n > 0 {
        law_longest_is_longest(logs, n - 1);
        let last = logs[n - 1];
        if last.content.len() < view::longest_content(logs, n - 1) {
            let i = choose|i: int|
                0 <= i < n - 1 && (#[trigger] logs[i]).content.len() == view::longest_content(logs, n - 1);
            assert(logs[i].content.len() == view::longest_content(logs, n));
        }
        if last.full_line().len() < view::longest_line(logs, n - 1) {
            let i = choose|i: int|
                0 <= i < n - 1 && (#[trigger] logs[i]).full_line().len() == view::longest_line(logs, n - 1);
            assert(logs[i].full_line().len() == view::longest_line(logs, n));
        }
    }
}

/// Ages are counted from the last line that has a time: no line behind it has one.
pub proof fn law_ages_count_from_last_time(logs: Seq<LogView>, n: int)
    requires
        0 <= n <= logs.len(),
    ensures
        view::latest_time(logs, n) is None ==> forall|i: int| 0 <= i < n ==> pipeline::log_secs(#[trigger] logs[i]) is None,
        view::latest_time(logs, n) matches Some(t) ==> exists|k: int|
            0 <= k < n && pipeline::log_secs(#[trigger] logs[k]) == Some(t) && forall|i: int|
                k < i < n ==> pipeline::log_secs(#[trigger] logs[i]) is None,
    decreases n,
{
    if n > 0 {
        law_ages_count_from_last_time(logs, n - 1);
        if pipeline::log_secs(logs[n - 1]) is Some {
            assert(pipeline::log_secs(logs[n - 1]) == view::latest_time(logs, n));
        } else if let Some(t) = view::latest_time(logs, n - 1) {
            let k = choose|k: int|
                0 <= k < n - 1 && pipeline::log_secs(#[trigger] logs[k]) == Some(t) && forall|i: int|
                    k < i < n - 1 ==> pipeline::log_secs(#[trigger] logs[i]) is None;
            assert(pipeline::log_secs(logs[k]) == Some(t));
        }
    }
}

} // verus!
