//! What is drawn, and how it goes with what is selected, clicked and told.

use super::area::Area;
use super::menu;
use super::pane;
use super::prompt;
use super::row::{self, Pens};
use super::screen;
use super::span;
use super::status;
use super::wrapped;
use crate::ansi::{self, Piece};
use crate::arith;
use crate::config::theme::UiTheme;
use crate::logitem::{self, LogView};
use crate::numbers;
use crate::query;
use crate::service::ServiceView;
use crate::state::view::{self, StateView, VisualMode};
use crate::style::Style;
use crate::text::{self, Class};
use crate::wrap;
use vstd::prelude::*;

verus! {

// ---------------------------------------------------------------------------
// Selections
// ---------------------------------------------------------------------------

/// What is drawn as selected of a line is what lies between the corners in reading
/// order, tags left out, where the corners lie on the text of their lines.
pub proof fn law_drawn_selection_is_selection(s: StateView, row: int, total: int, c: int)
    requires
        s.visual_mode == VisualMode::Character,
        s.visual_anchor is Some,
        0 <= s.prefix_at(row) <= c < total,
        row == s.corners().0.0 ==> s.corners().0.1 < total,
        row == s.corners().1.0 ==> s.prefix_at(row) <= s.corners().1.1,
    ensures
        ({
            let ((r1, c1), (r2, c2)) = s.corners();
            (s.selected_cols(row, total) matches Some((a, b)) && a <= c <= b) <==> (r1 < row || r1 == row && c1 <= c)
                && (row < r2 || row == r2 && c <= c2)
        }),
{
}

/// A selection of lines is drawn over the whole text of each line from one corner to
/// the other, one of a block over the columns between the corners.
pub proof fn law_drawn_lines_and_blocks(s: StateView, row: int, total: int, c: int)
    requires
        s.visual_anchor is Some,
        0 <= s.prefix_at(row) <= c < total,
    ensures
        ({
            let (ar, ac) = s.visual_anchor->0;
            let inside = (ar <= row <= s.cursor_row) || (s.cursor_row <= row <= ar);
            let drawn = s.selected_cols(row, total) matches Some((a, b)) && a <= c <= b;
            let between = (ac <= c <= s.cursor_col) || (s.cursor_col <= c <= ac);
            &&& s.visual_mode == VisualMode::Line ==> drawn == inside
            &&& s.visual_mode == VisualMode::Block && ac < total && s.cursor_col < total && s.prefix_at(row) <= ac
                && s.prefix_at(row) <= s.cursor_col ==> drawn == (inside && between)
            &&& s.visual_mode == VisualMode::Off ==> !drawn
        }),
{
}

/// Of a text that begins at column `col` of a line, what is drawn as selected is what
/// of the line would be copied.
pub proof fn law_selected_run_is_copied(line: Seq<char>, col: int, n: int, a: int, b: int, style: Style, sel: Style)
    requires
        0 <= col <= a <= b < col + n <= line.len(),
    ensures
        ({
            let s = line.subrange(col, col + n);
            wrapped::runs(s, col, Some((a, b)), style, sel) == span::styled_if_any(line.subrange(col, a), style)
                + seq![span::styled(view::span(line, a, b), sel)] + span::styled_if_any(
                line.subrange(b + 1, col + n),
                style,
            )
        }),
{
    let s = line.subrange(col, col + n);
    assert(s.take(a - col) =~= line.subrange(col, a));
    assert(s.subrange(a - col, b + 1 - col) =~= view::span(line, a, b));
    assert(s.skip(b + 1 - col) =~= line.subrange(b + 1, col + n));
}

/// Where nothing is selected of a line, nothing is drawn as selected.
pub proof fn law_unselected_run_is_plain(s: Seq<char>, col: int, style: Style, sel: Style)
    requires
        s.len() > 0,
    ensures
        wrapped::runs(s, col, None, style, sel) == seq![span::styled(s, style)],
{
}

/// Of the characters of a line, those in the selected columns are drawn as selected
/// and no others.
pub proof fn law_selected_characters(s: Seq<char>, col: int, cols: (int, int), style: Style, sel: Style, i: int)
    requires
        0 <= i < s.len(),
    ensures
        row::single_chars(s, col, cols, style, sel)[i].text == seq![s[i]],
        cols.0 <= col + i && col + i <= cols.1 ==> row::single_chars(s, col, cols, style, sel)[i].style == sel,
        col + i < cols.0 || cols.1 < col + i ==> row::single_chars(s, col, cols, style, sel)[i].style == style,
{
}

// ---------------------------------------------------------------------------
// The log pane
// ---------------------------------------------------------------------------

/// Where lines are cut, the rows on the pane are those from the first one shown on, one
/// below the other.
pub proof fn law_cut_rows_in_order(s: StateView, a: int, b: int, now: u64, p: Pens)
    requires
        a <= b,
        forall|r: int| a <= r < b ==> (#[trigger] s.visible_log(r)) is Some,
    ensures
        s.cut_rows(a, b, now, p).len() == b - a,
        forall|r: int|
            a <= r < b ==> s.cut_rows(a, b, now, p)[r - a] == s.cut_row(
                (#[trigger] s.visible_log(r))->0,
                r,
                now,
                p,
            ),
    decreases b - a,
{
    if a < b {
        law_cut_rows_in_order(s, a, b - 1, now, p);
        assert(s.visible_log(b - 1) is Some);
        assert forall|r: int| a <= r < b implies s.cut_rows(a, b, now, p)[r - a] == s.cut_row(
            (#[trigger] s.visible_log(r))->0,
            r,
            now,
            p,
        ) by {
            if r < b - 1 {
                assert(s.cut_rows(a, b, now, p)[r - a] == s.cut_rows(a, b - 1, now, p)[r - a]);
            }
        }
    }
}

/// Where lines are cut, the pane shows the rows from the first one on, as many as it has
/// room for.
pub proof fn law_pane_is_filled(s: StateView, area: Area, now: u64, p: Pens, y: int)
    requires
        s.line_fold,
        s.scroll_offset >= 0,
        0 <= y < area.height,
        s.scroll_offset + y < s.visible_count(),
        forall|r: int| s.scroll_offset <= r < s.visible_count() ==> (#[trigger] s.visible_log(r)) is Some,
    ensures
        ({
            let t = s.sized(area);
            let r = s.scroll_offset + y;
            &&& y < t.pane_lines(now, p).len()
            &&& t.pane_lines(now, p)[y] == t.cut_row(s.visible_log(r)->0, r, now, p)
            &&& t.viewport_height == area.height && t.viewport_width == area.width
            &&& t.visible_indices == s.visible_indices && t.cursor_row == s.cursor_row
        }),
{
    let t = s.sized(area);
    let (a, b) = (t.scroll_offset, t.cut_end());
    assert forall|r: int| a <= r < b implies (#[trigger] t.visible_log(r)) is Some by {
        assert(t.visible_log(r) == s.visible_log(r));
    }
    law_cut_rows_in_order(t, a, b, now, p);
    let r = s.scroll_offset + y;
    assert(t.visible_log(r) == s.visible_log(r));
    assert(t.cut_rows(a, b, now, p)[r - a] == t.cut_row(t.visible_log(r)->0, r, now, p));
}

/// Where lines are wrapped, a row of the pane shows the part of a line that a click on
/// it is taken for.
pub proof fn law_clicked_part_is_drawn(s: StateView, r: int, room: int, y: int, now: u64, p: Pens)
    requires
        0 <= r,
        0 <= y < room,
        s.viewport_width >= 0,
    ensures
        s.part_at(r, y) matches Some((row, part)) ==> {
            let l = s.visible_log(row)->0;
            &&& y < s.wrapped_rows(r, room, now, p).len()
            &&& s.wrapped_rows(r, room, now, p)[y] == s.part_line(
                l,
                row,
                s.parts(l)[part],
                part == 0,
                p,
                s.marks(l, row, now),
            )
        },
    decreases s.visible_count() - r,
{
    if r < s.visible_count() {
        let h = s.wrapped_height(r, room);
        let rest = s.wrapped_rows(r + 1, room - h, now, p);
        match s.visible_log(r) {
            None => {
                law_clicked_part_is_drawn(s, r + 1, room, y, now, p);
                assert(s.wrapped_rows(r, room, now, p) =~= rest);
            },
            Some(l) => {
                let n = s.parts(l).len() as int;
                let here = s.part_lines(l, r, h, p, s.marks(l, r, now));
                assert(s.wrapped_rows(r, room, now, p) == here + rest);
                if y >= n {
                    law_clicked_part_is_drawn(s, r + 1, room - h, y - n, now, p);
                }
            },
        }
    }
}

/// How a line stands: it is current where the cursor is and nothing is selected, marked
/// where it was marked, and dimmed where the filter being typed leaves it out.
pub proof fn law_marks_tell(s: StateView, log: LogView, row: int, now: u64, p: Pens)
    ensures
        ({
            let m = s.marks(log, row, now);
            &&& m.current <==> row == s.cursor_row && s.visual_mode == VisualMode::Off
            &&& m.toggled <==> s.row_toggled(row)
            &&& s.live_filter_ast is None ==> !m.dimmed
            &&& s.live_filter_ast matches Some(q) ==> m.dimmed == !q.accepts(log, now)
            &&& m.toggled ==> ansi::joined(row::check_mark(p, m)) == "✔ "@
            &&& !m.toggled ==> row::check_mark(p, m).len() == 0
        }),
{
    let m = s.marks(log, row, now);
    if m.toggled {
        let c = row::check_mark(p, m);
        assert(c =~= Seq::<Piece>::empty().push(c[0]));
        ansi::lemma_joined_push(Seq::<Piece>::empty(), c[0]);
        assert(ansi::joined(Seq::<Piece>::empty()) =~= Seq::<char>::empty());
        assert(ansi::joined(c) =~= "✔ "@);
    }
}

/// What is seen of a content: it begins at the scroll, shows a sign on each side where
/// some of it is cut off, and with the signs fits the room beside the tag.
pub proof fn law_window_fits(s: StateView, prefix: int, n: int)
    requires
        s.h_scroll >= 0,
        n >= 0,
        prefix >= 0,
        s.viewport_width - prefix > 2,
    ensures
        ({
            let (from, to, left, right) = s.window(prefix, n);
            let signs = (if left {
                1int
            } else {
                0int
            }) + (if right {
                1int
            } else {
                0int
            });
            &&& 0 <= from <= to <= n
            &&& s.h_scroll <= n ==> from == s.h_scroll
            &&& left <==> s.h_scroll > 0 && n > 0
            &&& right <==> to < n
            &&& (to - from) + signs <= s.viewport_width - prefix
            &&& right ==> (to - from) + signs == s.viewport_width - prefix
        }),
{
}

/// Where lines are cut, the cursor is drawn in the row of its line, and a click on it
/// finds it again, where it stands behind the first character of the text, no
/// character is without width and the view is not scrolled.
pub proof fn law_click_finds_cursor(s: StateView, area: Area, l: LogView)
    requires
        s.line_fold,
        area.x == 0,
        area.y == 0,
        s.h_scroll == 0,
        s.scroll_offset >= 0,
        s.visible_log(s.cursor_row) == Some(l),
        s.cut_cursor_log() == Some(l),
        !l.is_system,
        s.show_service_menu == false,
        s.prompt_mode == view::PromptMode::Off,
        l.prefix_len() < s.cursor_col < l.full_line().len(),
        forall|i: int| 0 <= i < l.content.len() ==> wrap::width(#[trigger] l.content[i]) > 0,
        wrap::width_up_to(l.tag(), l.tag().len() as int) + wrap::width_up_to(
            l.content,
            s.cursor_col - l.prefix_len(),
        ) < area.width,
        s.cursor_row - s.scroll_offset < area.height,
    ensures
        s.pane_cursor(area) matches Some((x, y)) && y == s.cursor_row - s.scroll_offset && s.pos_at(
            x as int,
            y as int,
        ) == (s.cursor_row, s.cursor_col),
{
    reveal(StateView::pos_at);
    let prefix = l.prefix_len() as int;
    let c = s.cursor_col - prefix;
    let tag = wrap::width_up_to(l.tag(), prefix);
    wrap::lemma_width(l.tag(), prefix);
    wrap::lemma_width(l.content, c);
    let w = wrap::width_up_to(l.content, c);
    assert(l.content.subrange(0, c) =~= l.content.take(c));
    lemma_width_of_front(l.content, c, c);
    assert(s.cut_cursor_x(l, area) == tag + w);
    assert(w > 0) by {
        wrap::lemma_width(l.content, c - 1);
        assert(wrap::width(l.content[c - 1]) > 0);
    }
    assert(l.content.skip(0) =~= l.content);
    lemma_char_found(l.content, 0, c);
}

proof fn lemma_width_of_front(s: Seq<char>, n: int, k: int)
    requires
        0 <= k <= n <= s.len(),
    ensures
        wrap::width_up_to(s.take(n), k) == wrap::width_up_to(s, k),
    decreases k,
{
    if k > 0 {
        lemma_width_of_front(s, n, k - 1);
    }
}

proof fn lemma_char_found(s: Seq<char>, i: int, c: int)
    requires
        0 <= i <= c < s.len(),
        forall|j: int| 0 <= j < s.len() ==> wrap::width(#[trigger] s[j]) > 0,
    ensures
        wrap::char_at(s, i, wrap::width_up_to(s, i), wrap::width_up_to(s, c)) == c,
    decreases c - i,
{
    assert(wrap::width_up_to(s, i + 1) == wrap::width_up_to(s, i) + wrap::width(s[i]));
    if i < c {
        wrap::lemma_width(s, c);
        assert(wrap::width_up_to(s, i + 1) <= wrap::width_up_to(s, c));
        lemma_char_found(s, i + 1, c);
    } else {
        assert(wrap::width(s[i]) > 0);
    }
}

proof fn lemma_holder(parts: Seq<wrap::ChunkView>, c: int, n: int)
    ensures
        pane::holder(parts, c, n) matches Some(i) ==> 0 <= i < n && i < parts.len() && pane::part_holds(parts, i, c),
    decreases n,
{
    if 0 < n <= parts.len() {
        lemma_holder(parts, c, n - 1);
    }
}

/// Where lines are wrapped, the cursor is drawn in the row of the screen that shows the
/// part of its line that holds it.
pub proof fn law_wrapped_cursor_in_its_part(s: StateView, r: int, room: int, area: Area)
    requires
        0 <= r,
    ensures
        s.wrapped_cursor(r, room, area) matches Some((x, y)) ==> {
            let d = y - area.y - (s.viewport_height - room);
            let l = s.visible_log(s.cursor_row)->0;
            &&& 0 <= d < room
            &&& s.part_at(r, d) matches Some((row, part))
            &&& row == s.cursor_row
            &&& pane::part_holds(s.parts(l), part, arith::less(s.cursor_col, l.prefix_len() as int))
            &&& x == s.wrapped_cursor_x(l, row, part, area)
        },
    decreases s.visible_count() - r,
{
    if r < s.visible_count() && room > 0 {
        let h = s.wrapped_height(r, room);
        if s.is_current(r) {
            if let Some(l) = s.visible_log(r) {
                lemma_holder(s.parts(l), arith::less(s.cursor_col, l.prefix_len() as int), h);
            }
        } else {
            law_wrapped_cursor_in_its_part(s, r + 1, room - h, area);
        }
    }
}

/// Where lines are wrapped, a click on the cursor finds its column again, where it stands
/// behind the first character of its part and no character is without width.
pub proof fn law_wrapped_click_finds_column(s: StateView, l: LogView, row: int, i: int, area: Area)
    requires
        s.visible_log(row) == Some(l),
        area.x == 0,
        0 <= i < s.parts(l).len(),
        s.parts(l)[i].start >= 0,
        l.prefix_len() + s.parts(l)[i].start < s.cursor_col < l.prefix_len() + s.parts(l)[i].start
            + s.parts(l)[i].text.len(),
        forall|k: int| 0 <= k < s.parts(l)[i].text.len() ==> wrap::width(#[trigger] s.parts(l)[i].text[k]) > 0,
        l.prefix_len() + 2 + wrap::width_up_to(
            s.parts(l)[i].text,
            s.cursor_col - l.prefix_len() - s.parts(l)[i].start,
        ) < area.width,
    ensures
        s.wrapped_col(row, i, s.wrapped_cursor_x(l, row, i, area)) == s.cursor_col,
{
    let part = s.parts(l)[i];
    let c = s.cursor_col - l.prefix_len() - part.start;
    wrap::lemma_width(part.text, c);
    assert(wrap::width_up_to(part.text, c) > 0) by {
        wrap::lemma_width(part.text, c - 1);
        assert(wrap::width(part.text[c - 1]) > 0);
    }
    lemma_char_found(part.text, 0, c);
}

/// Where a line is cut off to the left an arrow stands if the cursor is there, else an
/// ellipsis; where it is not, nothing does.
pub proof fn law_left_edge(s: StateView, prefix: int, n: int, p: Pens, m: row::Marks)
    requires
        s.viewport_width - prefix > 2,
        prefix >= 0,
        n > 0,
    ensures
        s.h_scroll <= 0 ==> s.left_edge(prefix, n, p, m).len() == 0,
        s.h_scroll > 0 ==> s.left_edge(prefix, n, p, m).len() == 1,
        s.h_scroll > 0 && m.current && s.cursor_col - prefix < s.h_scroll && s.cursor_col >= prefix
            ==> s.left_edge(prefix, n, p, m)[0].text == "◀"@,
        s.h_scroll > 0 && !m.current ==> s.left_edge(prefix, n, p, m)[0].text == "…"@,
        s.h_scroll > 0 && s.h_scroll <= s.cursor_col - prefix && s.h_scroll <= n ==> s.left_edge(
            prefix,
            n,
            p,
            m,
        )[0].text == "…"@,
{
}

// ---------------------------------------------------------------------------
// The bar
// ---------------------------------------------------------------------------

/// An age is told in the largest unit that it reaches, rounded down: so many units have
/// passed, and one more has not.
pub proof fn law_age_is_rounded_down(secs: int) -> (r: (int, int))
    requires
        secs >= 0,
    ensures
        ({
            let (n, unit) = r;
            &&& n * unit <= secs < (n + 1) * unit
            &&& unit == 1 && secs < 60 && status::age_text(secs) == numbers::decimal(n as nat) + "s"@ || unit == 60
                && 60 <= secs < 60 * 60 && status::age_text(secs) == numbers::decimal(n as nat) + "m"@ || unit == 60
                * 60 && 60 * 60 <= secs < 24 * 60 * 60 && status::age_text(secs) == numbers::decimal(n as nat) + "h"@
                || unit == 24 * 60 * 60 && 24 * 60 * 60 <= secs && status::age_text(secs) == numbers::decimal(
                n as nat,
            ) + "d"@
        }),
{
    if secs < 60 {
        (secs, 1)
    } else if secs < 3600 {
        (secs / 60, 60)
    } else if secs < 86400 {
        (secs / 3600, 3600)
    } else {
        (secs / 86400, 86400)
    }
}

/// A length of time is told in hours and minutes, or in days and hours, rounded down;
/// whole hours are told without minutes.
pub proof fn law_length_in_two_units(secs: int) -> (r: (int, int))
    requires
        60 * 60 <= secs,
    ensures
        ({
            let (n, m) = r;
            &&& secs < 24 * 60 * 60 ==> {
                &&& 0 <= m < 60
                &&& n * (60 * 60) + m * 60 <= secs < n * (60 * 60) + (m + 1) * 60
                &&& m > 0 ==> status::length_text(secs) == numbers::decimal(n as nat) + "h "@ + numbers::decimal(
                    m as nat,
                ) + "m"@
                &&& m == 0 ==> status::length_text(secs) == numbers::decimal(n as nat) + "h"@
            }
            &&& secs >= 24 * 60 * 60 ==> {
                &&& 0 <= m < 24
                &&& n * (24 * 60 * 60) + m * (60 * 60) <= secs < n * (24 * 60 * 60) + (m + 1) * (60 * 60)
                &&& status::length_text(secs) == numbers::decimal(n as nat) + "d "@ + numbers::decimal(m as nat)
                    + "h"@
            }
        }),
{
    if secs < 86400 {
        let n = secs / 3600;
        let rest = secs % 3600;
        let m = rest / 60;
        assert(secs == n * 3600 + rest && 0 <= rest < 3600);
        assert(m * 60 <= rest < (m + 1) * 60);
        (n, m)
    } else {
        let n = secs / 86400;
        let rest = secs % 86400;
        let m = rest / 3600;
        assert(secs == n * 86400 + rest && 0 <= rest < 86400);
        assert(m * 3600 <= rest < (m + 1) * 3600);
        (n, m)
    }
}

/// Below an hour a length of time is told as an age is.
pub proof fn law_short_length_is_age(secs: int)
    requires
        0 <= secs < 60 * 60,
    ensures
        status::length_text(secs) == status::age_text(secs),
{
}

/// How far two dates lie apart does not depend on which comes first.
pub proof fn law_span_has_no_direction(a: Seq<char>, b: Seq<char>) -> (apart: int)
    ensures
        apart >= 0,
        apart == status::secs_or_zero(a) - status::secs_or_zero(b) || apart == status::secs_or_zero(b)
            - status::secs_or_zero(a),
        apart < 60 ==> status::span_text(a, b) == "\u{f13ab} "@ + status::text_or(status::whole_seconds(a), "00:00:00"@)
            + " → "@ + status::text_or(status::whole_seconds(b), "00:00:00"@) + " ("@ + status::length_text(apart)
            + ")  "@,
        apart >= 60 ==> status::span_text(a, b) == "\u{f13ab} "@ + status::text_or(status::hours_minutes(a), "00:00"@)
            + " → "@ + status::text_or(status::hours_minutes(b), "00:00"@) + " ("@ + status::length_text(apart)
            + ")  "@,
{
    let (x, y) = (status::secs_or_zero(a), status::secs_or_zero(b));
    if x <= y {
        y - x
    } else {
        x - y
    }
}

proof fn lemma_piece_before(a: Seq<char>, c: char, b: Seq<char>)
    requires
        !a.contains(c),
    ensures
        text::split_once(a + seq![c] + b, c) == Some((a, b)),
        text::split(a + seq![c] + b, c) == seq![a] + text::split(b, c),
{
    crate::docker::clock::lemma_cut_at_mark(a, c, b);
}

proof fn lemma_clock_part(day: Seq<char>, t: Seq<char>)
    requires
        !day.contains('T'),
        t.len() > 0,
        t.last() != 'Z',
    ensures
        status::clock_part(day + seq!['T'] + t + seq!['Z']) == Some(t),
{
    let body = day + seq!['T'] + t;
    let ts = body + seq!['Z'];
    let n = ts.len() as int;
    assert(ts[n - 1] == 'Z' && ts[n - 2] == t.last());
    assert(text::run_start(ts, n - 1, Class::Is('Z')) == n - 1);
    assert(text::run_start(ts, n, Class::Is('Z')) == n - 1);
    assert(ts.take(n - 1) =~= body);
    lemma_piece_before(day, 'T', t);
}

proof fn lemma_two_pieces(h: Seq<char>, m: Seq<char>, rest: Seq<char>)
    requires
        !h.contains(':'),
        !m.contains(':'),
    ensures
        ({
            let parts = text::split(h + seq![':'] + (m + seq![':'] + rest), ':');
            parts.len() >= 2 && parts[0] == h && parts[1] == m
        }),
{
    lemma_piece_before(h, ':', m + seq![':'] + rest);
    lemma_piece_before(m, ':', rest);
    let tail = text::split(m + seq![':'] + rest, ':');
    assert(tail[0] == m);
    let parts = seq![h] + tail;
    assert(parts[1] == tail[0]);
}

proof fn lemma_lacks(a: Seq<char>, m: char, b: Seq<char>, c: char)
    requires
        !a.contains(c),
        !b.contains(c),
        m != c,
    ensures
        !(a + seq![m] + b).contains(c),
{
    let s = a + seq![m] + b;
    assert forall|i: int| 0 <= i < s.len() implies s[i] != c by {
        if i < a.len() {
            assert(s[i] == a[i] && a.contains(a[i]));
        } else if i > a.len() {
            let j = i - a.len() - 1;
            assert(s[i] == b[j] && b.contains(b[j]));
        }
    }
}

/// The hours and minutes of a date are what stands before the first two colons behind
/// its `T`; its whole seconds are what stands before the fraction.
pub proof fn law_time_of_day(day: Seq<char>, h: Seq<char>, m: Seq<char>, sec: Seq<char>, frac: Seq<char>)
    requires
        !day.contains('T'),
        !h.contains(':') && !m.contains(':'),
        !h.contains('.') && !m.contains('.') && !sec.contains('.'),
        frac.len() > 0,
        frac.last() != 'Z',
    ensures
        ({
            let clock = h + seq![':'] + (m + seq![':'] + sec);
            let ts = day + seq!['T'] + (clock + seq!['.'] + frac) + seq!['Z'];
            &&& status::hours_minutes(ts) == Some(h + seq![':'] + m)
            &&& status::whole_seconds(ts) == Some(clock)
        }),
{
    let clock = h + seq![':'] + (m + seq![':'] + sec);
    let t = clock + seq!['.'] + frac;
    let rest = sec + seq!['.'] + frac;
    assert(t.last() == frac.last());
    lemma_clock_part(day, t);
    assert(t =~= h + seq![':'] + (m + seq![':'] + rest));
    lemma_two_pieces(h, m, rest);
    lemma_lacks(m, ':', sec, '.');
    lemma_lacks(h, ':', m + seq![':'] + sec, '.');
    lemma_piece_before(clock, '.', frac);
}

/// The place is told counting from one, and with how many lines there are.
pub proof fn law_place_counts_from_one(s: StateView)
    ensures
        s.place_info() == "  "@ + numbers::decimal((s.cursor_row + 1) as nat) + ":"@ + numbers::decimal(
            (s.cursor_col + 1) as nat,
        ) + " / "@ + numbers::decimal(s.visible_count() as nat) + " "@,
{
}

/// The time is told of the line under the cursor while nothing is selected, and of the
/// first and the last selected line else, whichever of them the cursor is on.
pub proof fn law_time_is_told_of(s: StateView, t: StateView, now: u64, a: Seq<char>, b: Seq<char>)
    requires
        s.visual_mode != VisualMode::Off,
        s.visual_anchor is Some,
        t == (StateView {
            visual_anchor: Some((s.cursor_row as usize, s.cursor_col as usize)),
            cursor_row: (s.visual_anchor->0).0 as int,
            cursor_col: (s.visual_anchor->0).1 as int,
            ..s
        }),
        0 <= s.cursor_row <= usize::MAX,
        s.date_at(s.cursor_row) == Some(b),
        s.date_at((s.visual_anchor->0).0 as int) == Some(a),
    ensures
        s.time_info(now) == t.time_info(now),
        (s.visual_anchor->0).0 <= s.cursor_row ==> s.time_info(now) == Some(status::span_text(a, b)),
        (StateView { visual_mode: VisualMode::Off, ..s }).time_info(now) is Some ==> crate::query::time::timestamp_secs(
            b,
        ) is Some,
{
}

// ---------------------------------------------------------------------------
// The menu
// ---------------------------------------------------------------------------

/// The menu is drawn where the mouse finds it.
pub proof fn law_menu_is_where_it_is_clicked(s: StateView, x: int, y: int)
    requires
        0 <= s.viewport_width < 65536,
        0 <= s.viewport_height < 65536,
        0 <= x,
        0 <= y,
    ensures
        s.in_menu(x, y) <==> menu::menu_area(
            Area { x: 0, y: 0, width: s.viewport_width as u16, height: s.viewport_height as u16 },
        ).has(x, y),
{
}

/// The menu lies in the lower left of the log pane.
pub proof fn law_menu_in_lower_left(parent: Area)
    requires
        parent.y + parent.height <= 65535,
    ensures
        ({
            let m = menu::menu_area(parent);
            &&& m.x == parent.x
            &&& m.y + m.height == parent.y + parent.height
            &&& parent.y <= m.y
            &&& m.width <= parent.width && m.height <= parent.height
        }),
{
}

/// A row of the list shows the service in it: a mark where it is switched on, its name,
/// and a dot in the colour of its standing, errors first. With an ASCII name it is as
/// wide as the list.
pub proof fn law_menu_row_tells(opt: ServiceView, selected: bool, width: int, theme: UiTheme)
    requires
        width > 4,
        vstd::utf8::is_ascii_chars(opt.name),
    ensures
        ({
            let r = menu::menu_row(opt, selected, width, theme);
            &&& opt.enabled ==> r[0].text == "✔ "@
            &&& !opt.enabled ==> r[0].text == "  "@
            &&& opt.name.len() <= width - 4 ==> r[1].text == opt.name
            &&& r[0].text.len() + r[1].text.len() + r[2].text.len() + r[3].text.len() == width
            &&& opt.has_error ==> menu::dot_color(opt, theme) == theme.status_error
            &&& !opt.has_error && opt.is_running ==> menu::dot_color(opt, theme) == theme.status_active
            &&& !opt.has_error && !opt.is_running ==> menu::dot_color(opt, theme) == theme.dim
        }),
{
    reveal_strlit("✔ ");
    reveal_strlit("  ");
    reveal_strlit("●");
    logitem::law_ascii_names_clip(opt.name, width - 4);
}

/// The list shows the services that are found from the first one shown on, and only the
/// selected one as such.
pub proof fn law_menu_shows_found(s: StateView, width: int, height: int, theme: UiTheme, k: int)
    requires
        s.service_rows().len() > 0,
        s.service_menu_scroll >= 0,
        0 <= k < height,
        s.service_menu_scroll + k < s.service_rows().len(),
    ensures
        k < s.menu_rows(width, height, theme).len(),
        ({
            let i = s.service_menu_scroll + k;
            s.menu_rows(width, height, theme)[k] == menu::menu_row(
                s.service_options[s.service_rows()[i] as int],
                i == s.service_menu_selected_idx,
                width,
                theme,
            )
        }),
{
}

/// Where no service is found, the list says so in its middle.
pub proof fn law_menu_says_none_found(s: StateView, width: int, height: int, theme: UiTheme)
    requires
        s.service_rows().len() == 0,
        height > 0,
    ensures
        s.menu_rows(width, height, theme).len() == (height - 1) / 2 + 1,
        s.menu_rows(width, height, theme).last().len() == 1,
        s.menu_rows(width, height, theme).last()[0].text == "No results"@,
        forall|i: int| 0 <= i < (height - 1) / 2 ==> (#[trigger] s.menu_rows(width, height, theme)[i]).len() == 0,
{
}

/// Drawing the list brings the selected service into it.
pub proof fn law_menu_scrolls_to_selected(s: StateView, height: int)
    requires
        height > 0,
        0 <= s.service_menu_selected_idx < s.service_rows().len(),
        s.service_menu_scroll >= 0,
    ensures
        ({
            let t = s.menu_scrolled(height);
            &&& t.service_menu_scroll <= s.service_menu_selected_idx < t.service_menu_scroll + height
            &&& t.service_menu_selected_idx == s.service_menu_selected_idx
        }),
{
    menu::law_selected_service_in_list(s, height);
}

// ---------------------------------------------------------------------------
// The prompt and notices
// ---------------------------------------------------------------------------

/// The cursor of the prompt stands behind the label and what of the input lies before
/// it, as far as there is room; the search's behind its label and all of it.
pub proof fn law_prompt_cursor(s: StateView, area: Area)
    requires
        s.prompt_mode == view::PromptMode::Filter,
        0 <= s.filter_cursor_col <= s.input_buffer.len(),
        prompt::filter_label(crate::style::RatColor::White).text.len() + wrap::width_up_to(
            s.input_buffer,
            s.filter_cursor_col,
        ) < area.width,
        area.x + area.width <= 65535,
    ensures
        s.command_cursor(area) matches Some((x, y)) && x == area.x + prompt::filter_label(
            crate::style::RatColor::White,
        ).text.len() + wrap::width_up_to(s.input_buffer, s.filter_cursor_col) && y == area.y,
{
    reveal_strlit("filter: ");
    wrap::lemma_width(s.input_buffer, s.filter_cursor_col);
}

/// The cursor of the search stands behind its label and what is typed.
pub proof fn law_search_cursor(s: StateView, area: Area, theme: UiTheme)
    requires
        s.search_line(theme)[0].text.len() + s.service_search_query.len() < area.width,
        area.x + area.width <= 65535,
    ensures
        s.search_cursor(area).0 == area.x + s.search_line(theme)[0].text.len() + s.search_line(theme)[1].text.len(),
        s.search_line(theme)[1].text == s.service_search_query,
{
    reveal_strlit("Search: ");
}

/// The line below shows the filter being typed, else the one in force, else nothing; a
/// filter that cannot be read is said to be invalid.
pub proof fn law_command_line_shows(s: StateView)
    ensures
        s.prompt_mode == view::PromptMode::Filter ==> s.command_line() is Some,
        s.prompt_mode == view::PromptMode::Off ==> (s.command_line() is Some <==> s.active_filter_str is Some),
        s.prompt_mode == view::PromptMode::Off && s.active_filter_str is Some && query::query_of(
            s.active_filter_str->0,
        ) is Err ==> s.command_line()->0.last().text == "[invalid: "@ + s.active_filter_str->0 + "]"@,
        s.prompt_mode == view::PromptMode::Off && s.active_filter_str is Some && query::query_of(
            s.active_filter_str->0,
        ) is Ok ==> s.command_line()->0.skip(1) == prompt::colored(s.active_filter_str->0, 0),
{
    if s.prompt_mode == view::PromptMode::Off && s.active_filter_str is Some {
        let a = s.active_filter_str->0;
        if query::query_of(a) is Ok {
            let line = s.command_line()->0;
            assert(line.skip(1) =~= prompt::colored(a, 0));
        }
    }
}

/// A notice lies in the upper right of the log pane, a column and a row from its edges,
/// with room for its text where there is any.
pub proof fn law_notice_in_upper_right(parent: Area, n: int)
    requires
        parent.x + parent.width <= 65535,
        parent.width >= 3,
        parent.y < 65535,
        0 <= n < 65536,
    ensures
        ({
            let a = screen::popup_area(parent, n);
            &&& a.x + a.width + 1 == parent.x + parent.width
            &&& parent.x < a.x
            &&& a.y == parent.y + 1
            &&& n + 4 <= parent.width - 2 ==> a.width == n + 4
        }),
{
}

/// What the viewer tells of itself is coloured by what happened: a death or a kill as
/// an error, a restart as a warning, a start as success.
pub proof fn law_system_colors(content: Seq<char>, theme: UiTheme)
    ensures
        ({
            let says = |w: Seq<char>| text::contains(content, w);
            let c = row::system_color(content, theme).0;
            &&& says("DIE"@) || says("KILL"@) ==> c == theme.status_error
            &&& !says("DIE"@) && !says("KILL"@) && says("RESTART"@) ==> c == theme.status_warn
            &&& !says("DIE"@) && !says("KILL"@) && !says("RESTART"@) && says("START"@) ==> c == theme.status_active
            &&& row::system_color(content, theme).1 <==> says("DIE"@) || says("KILL"@) || says("RESTART"@) || says(
                "START"@,
            )
        }),
{
}

/// The bar's two sides share its row: the right one ends where it ends and is as wide as
/// what it says, the left one takes the rest.
pub proof fn law_bar_sides_share_row(b: status::StatusBar, s: StateView, area: Area, theme: UiTheme, now: u64)
    requires
        status::is_bar_of(b, s, area, theme, now),
        area.x + area.width <= 65535,
        s.indicators_width(now) <= area.width,
    ensures
        b.left_area.x == area.x,
        b.left_area.x + b.left_area.width == b.right_area.x,
        b.right_area.x + b.right_area.width == area.x + area.width,
        b.left_area.y == area.y && b.right_area.y == area.y,
        s.time_info(now) is None && s.place_info().len() < 65536 ==> b.right_area.width == s.place_info().len(),
        s.time_info(now) matches Some(t) ==> t.len() + s.place_info().len() < 65536 ==> b.right_area.width == t.len()
            + s.place_info().len(),
{
}

/// On the right the bar tells the time, where there is one to tell, and then the place,
/// which stands out while there are lines below the screen.
pub proof fn law_bar_tells_time_and_place(s: StateView, now: u64)
    ensures
        s.indicators(now).last().text == s.place_info(),
        s.time_info(now) matches Some(t) ==> s.indicators(now).len() == 2 && s.indicators(now)[0].text == t,
        s.time_info(now) is None ==> s.indicators(now).len() == 1,
        s.scroll_offset + s.viewport_height < s.visible_count() && s.viewport_height >= 0 && s.scroll_offset >= 0
            ==> s.place_style() == Style::plain().with(
            crate::style::Emphasis::reversed().union(crate::style::Emphasis::bold()),
        ),
        s.scroll_offset + s.viewport_height >= s.visible_count() && s.scroll_offset >= 0 && s.viewport_height >= 0
            ==> s.place_style() == Style::plain().fg(crate::style::RatColor::DarkGray),
{
}

/// The cursor of the screen is where text is typed: in the search, else in the prompt;
/// the log shows it only while neither the menu nor the prompt is open.
pub proof fn law_cursor_is_where_typed(s: StateView, parts: Seq<Area>, menu_parts: Seq<Area>)
    ensures
        s.show_service_menu && s.show_service_search ==> s.screen_cursor(parts, menu_parts) == Some(
            s.search_cursor(menu_parts[2]),
        ),
        !(s.show_service_menu && s.show_service_search) && s.prompt_mode == view::PromptMode::Filter
            ==> s.screen_cursor(parts, menu_parts) == s.command_cursor(parts[2]),
        s.show_service_menu && !s.show_service_search && s.prompt_mode == view::PromptMode::Off ==> s.screen_cursor(
            parts,
            menu_parts,
        ) is None,
        s.pane_cursor(parts[0]) is Some ==> s.prompt_mode == view::PromptMode::Off && !s.show_service_menu,
        s.pane_cursor(parts[0]) matches Some((x, y)) ==> parts[0].has(x as int, y as int),
{
}

} // verus!
