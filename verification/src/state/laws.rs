//! What holds of the viewer's state as a whole.

use super::view::{self, StateView, VisualMode};
use crate::arith;
use crate::logitem::LogView;
use crate::query::dedup::Row;
use crate::query::{self, laws, pipeline};
use crate::service;
use crate::text;
use vstd::prelude::*;

verus! {

// ---------------------------------------------------------------------------
// The cursor
// ---------------------------------------------------------------------------

/// Where lines are cut, the adjusted scroll shows the row of the cursor.
pub proof fn law_cursor_on_screen_when_cut(s: StateView)
    requires
        s.line_fold,
        s.viewport_height > 0,
        0 <= s.cursor_row < s.visible_count(),
        s.scroll_offset >= 0,
        s.scrolloff >= 0,
    ensures
        ({
            let t = s.v_adjusted();
            t.scroll_offset <= t.cursor_row < t.scroll_offset + t.viewport_height
        }),
{
    reveal(StateView::v_adjusted);
}

proof fn lemma_forward(s: StateView, off: int, total: int)
    requires
        off <= s.cursor_row,
        total == s.height_between(off, s.cursor_row + 1),
        forall|r: int| #[trigger] s.height_of(r) >= 0,
    ensures
        ({
            let f = s.forward_from(off, total);
            &&& off <= f <= s.cursor_row
            &&& f == s.cursor_row || s.height_between(f, s.cursor_row + 1) <= s.viewport_height
        }),
    decreases s.cursor_row - off,
{
    if off < s.cursor_row && total > s.viewport_height {
        lemma_height_front(s, off, s.cursor_row + 1);
        lemma_height_pos(s, off + 1, s.cursor_row + 1);
        lemma_forward(s, off + 1, total - s.height_of(off));
    }
}

pub proof fn lemma_height_pos(s: StateView, a: int, b: int)
    requires
        forall|r: int| #[trigger] s.height_of(r) >= 0,
    ensures
        s.height_between(a, b) >= 0,
    decreases b - a,
{
    if a < b {
        lemma_height_pos(s, a, b - 1);
        assert(s.height_of(b - 1) >= 0);
    }
}

proof fn lemma_height_front(s: StateView, a: int, b: int)
    requires
        a < b,
    ensures
        s.height_between(a, b) == s.height_of(a) + s.height_between(a + 1, b),
    decreases b - a,
{
    if a + 1 < b {
        lemma_height_front(s, a, b - 1);
    } else {
        assert(s.height_between(a, a) == 0);
        assert(s.height_between(a + 1, b) == 0);
    }
}

pub proof fn lemma_heights(s: StateView)
    requires
        s.viewport_width >= 0,
    ensures
        forall|r: int| #[trigger] s.height_of(r) >= 0,
{
    assert forall|r: int| #[trigger] s.height_of(r) >= 0 by {
        if let Some(l) = s.visible_log(r) {
            crate::wrap::law_rows_are_chunks(l.content, s.wrap_width(l));
        }
    }
}

/// Where lines are wrapped, the adjusted scroll shows the row of the cursor: all
/// rows from the first shown to the cursor's fit on the screen, unless the
/// cursor's row is itself the first.
pub proof fn law_cursor_on_screen_when_wrapped(s: StateView)
    requires
        !s.line_fold,
        s.viewport_height > 0,
        s.viewport_width >= 0,
        0 <= s.cursor_row < s.visible_count(),
        s.scroll_offset >= 0,
    ensures
        ({
            let t = s.v_adjusted();
            &&& 0 <= t.scroll_offset <= t.cursor_row
            &&& t.scroll_offset == t.cursor_row || s.height_between(t.scroll_offset, t.cursor_row + 1)
                <= t.viewport_height
        }),
{
    reveal(StateView::v_adjusted);
    lemma_heights(s);
    if s.scroll_offset <= s.cursor_row {
        lemma_forward(s, s.scroll_offset, s.height_between(s.scroll_offset, s.cursor_row + 1));
    }
}

/// Moving up, down, to the top and to the bottom leaves the cursor in a visible row.
pub proof fn law_moves_stay_in_rows(s: StateView, amount: int)
    requires
        0 <= s.cursor_row < s.visible_count(),
        amount >= 0,
    ensures
        0 <= s.moved_down(amount).cursor_row < s.visible_count(),
        0 <= s.moved_up(amount).cursor_row < s.visible_count(),
        s.moved_to_top().cursor_row == 0,
        s.moved_to_bottom().cursor_row == s.visible_count() - 1,
        s.moved_down(amount).visible_count() == s.visible_count(),
        s.moved_up(amount).visible_count() == s.visible_count(),
{
    reveal(StateView::v_adjusted);
}

/// Moving the cursor changes no line and nothing of what is visible.
pub proof fn law_moves_keep_lines(s: StateView, amount: int)
    ensures
        s.moved_down(amount).logs == s.logs && s.moved_down(amount).visible_indices == s.visible_indices,
        s.moved_up(amount).logs == s.logs && s.moved_up(amount).visible_indices == s.visible_indices,
        s.moved_left(amount).logs == s.logs && s.moved_left(amount).visible_indices == s.visible_indices,
        s.moved_right(amount).logs == s.logs && s.moved_right(amount).visible_indices == s.visible_indices,
        s.fold_toggled().logs == s.logs && s.fold_toggled().visible_indices == s.visible_indices,
        s.fold_toggled().cursor_row == s.cursor_row && s.fold_toggled().cursor_col == s.cursor_col,
{
    reveal(StateView::v_adjusted);
    reveal(StateView::h_adjusted);
    reveal(StateView::fold_toggled);
}

/// Marking a line twice leaves it as it was.
pub proof fn law_mark_twice(s: StateView)
    ensures
        s.line_toggled().line_toggled() == s,
{
    if 0 <= s.cursor_row < s.visible_indices.len() {
        let idx = s.visible_indices[s.cursor_row];
        assert(s.line_toggled().line_toggled().toggled_lines =~= s.toggled_lines);
    }
    assert(s.line_toggled().line_toggled() =~= s);
}

/// Leaving the selection leaves none behind.
pub proof fn law_no_selection_after_leaving(s: StateView)
    requires
        s.toggled_lines.is_empty(),
    ensures
        s.mode_left().selected_text() is None,
{
    reveal(StateView::selected_text);
}

// ---------------------------------------------------------------------------
// Lines coming in
// ---------------------------------------------------------------------------

/// The log holds at most as many lines as it has room for.
pub proof fn law_capacity_kept(s: StateView, item: LogView, now: u64)
    requires
        s.logs.len() <= s.max_capacity,
        s.max_capacity > 0,
    ensures
        s.pushed(item, now).logs.len() <= s.max_capacity,
        s.logs.len() < s.max_capacity ==> s.pushed(item, now).logs.len() == s.logs.len() + 1,
{
    reveal(StateView::place_kept);
    let made = s.room_made();
    lemma_place_inside(made, item);
    lemma_follow_keeps_logs(s.noted(item, now), s.at_bottom());
}

proof fn lemma_follow_keeps_logs(s: StateView, was_at_bottom: bool)
    ensures
        s.followed(was_at_bottom).logs == s.logs,
{
    reveal(StateView::v_adjusted);
}

proof fn lemma_place_for(logs: Seq<LogView>, ts: Seq<char>, n: int)
    requires
        0 <= n <= logs.len(),
    ensures
        0 <= view::place_for(logs, ts, n) <= n,
        forall|k: int|
            view::place_for(logs, ts, n) <= k < n && (#[trigger] logs[k]).timestamp is Some ==> !text::lex_le(
                logs[k].timestamp->0,
                ts,
            ),
        view::place_for(logs, ts, n) > 0 ==> {
            let k = view::place_for(logs, ts, n) - 1;
            logs[k].timestamp is Some && text::lex_le(logs[k].timestamp->0, ts)
        },
    decreases n,
{
    if n > 0 {
        lemma_place_for(logs, ts, n - 1);
    }
}

proof fn lemma_place_inside(s: StateView, item: LogView)
    ensures
        0 <= s.place_of(item) <= s.logs.len(),
{
    if let Some(ts) = item.timestamp {
        lemma_place_for(s.logs, ts, s.logs.len() as int);
    }
}

/// Of two texts, one does not come after the other.
pub proof fn law_text_order_total(a: Seq<char>, b: Seq<char>)
    ensures
        text::lex_le(a, b) || text::lex_le(b, a),
{
    lemma_total_from(a, b, 0);
}

proof fn lemma_total_from(a: Seq<char>, b: Seq<char>, i: int)
    requires
        0 <= i,
    ensures
        text::lex_le_from(a, b, i) || text::lex_le_from(b, a, i),
    decreases a.len() - i,
{
    if i < a.len() && i < b.len() && a[i] == b[i] {
        lemma_total_from(a, b, i + 1);
    }
}

/// The order of texts carries over.
pub proof fn law_text_order_transitive(a: Seq<char>, b: Seq<char>, c: Seq<char>)
    requires
        text::lex_le(a, b),
        text::lex_le(b, c),
    ensures
        text::lex_le(a, c),
{
    lemma_transitive_from(a, b, c, 0);
}

proof fn lemma_transitive_from(a: Seq<char>, b: Seq<char>, c: Seq<char>, i: int)
    requires
        0 <= i,
        text::lex_le_from(a, b, i),
        text::lex_le_from(b, c, i),
    ensures
        text::lex_le_from(a, c, i),
    decreases a.len() - i,
{
    if i < a.len() && i < b.len() && i < c.len() && a[i] == b[i] && b[i] == c[i] {
        lemma_transitive_from(a, b, c, i + 1);
    }
}

/// Every line has a date, and no line comes before an earlier one.
pub open spec fn in_date_order(logs: Seq<LogView>) -> bool {
    &&& forall|i: int| 0 <= i < logs.len() ==> (#[trigger] logs[i]).timestamp is Some
    &&& forall|i: int, j: int|
        0 <= i < j < logs.len() ==> text::lex_le(
            (#[trigger] logs[i]).timestamp->0,
            (#[trigger] logs[j]).timestamp->0,
        )
}

/// Dated lines that stand in the order of their dates still do so once a dated line has come in.
pub proof fn law_date_order_kept(s: StateView, item: LogView, now: u64)
    requires
        in_date_order(s.logs),
        item.timestamp is Some,
    ensures
        in_date_order(s.pushed(item, now).logs),
{
    let made = s.room_made();
    let ts = item.timestamp->0;
    let n = made.logs.len() as int;
    let p = made.place_of(item);
    lemma_place_for(made.logs, ts, n);
    reveal(StateView::place_kept);
    assert(in_date_order(made.logs)) by {
        if s.logs.len() >= s.max_capacity {
            let k = arith::lesser(1, s.logs.len() as int);
            assert forall|i: int| 0 <= i < made.logs.len() implies (#[trigger] made.logs[i]).timestamp is Some by {
                assert(made.logs[i] == s.logs[i + k]);
            }
            assert forall|i: int, j: int| 0 <= i < j < made.logs.len() implies text::lex_le(
                (#[trigger] made.logs[i]).timestamp->0,
                (#[trigger] made.logs[j]).timestamp->0,
            ) by {
                assert(made.logs[i] == s.logs[i + k]);
                assert(made.logs[j] == s.logs[j + k]);
            }
        }
    }
    let all = made.logs.insert(p, item);
    lemma_follow_keeps_logs(s.noted(item, now), s.at_bottom());
    assert(s.pushed(item, now).logs == all);
    assert forall|i: int| 0 <= i < all.len() implies (#[trigger] all[i]).timestamp is Some by {
        if i < p {
            assert(all[i] == made.logs[i]);
        } else if i > p {
            assert(all[i] == made.logs[i - 1]);
        }
    }
    assert forall|i: int, j: int| 0 <= i < j < all.len() implies text::lex_le(
        (#[trigger] all[i]).timestamp->0,
        (#[trigger] all[j]).timestamp->0,
    ) by {
        if j < p {
            assert(all[i] == made.logs[i] && all[j] == made.logs[j]);
        } else if i > p {
            assert(all[i] == made.logs[i - 1] && all[j] == made.logs[j - 1]);
        } else if i == p {
            assert(all[j] == made.logs[j - 1]);
            law_text_order_total(ts, made.logs[j - 1].timestamp->0);
        } else if j == p {
            assert(all[i] == made.logs[i]);
            if i < p - 1 {
                law_text_order_transitive(made.logs[i].timestamp->0, made.logs[p - 1].timestamp->0, ts);
            }
        } else {
            assert(all[i] == made.logs[i] && all[j] == made.logs[j - 1]);
            if i < j - 1 {
                assert(text::lex_le(made.logs[i].timestamp->0, made.logs[j - 1].timestamp->0));
            } else {
                law_text_order_total(made.logs[i].timestamp->0, made.logs[i].timestamp->0);
            }
        }
    }
}

/// The lines that stood in the log before a line came in behind them all are
/// shown as before, and the new line is shown if a full computation would show it.
pub proof fn law_append_agrees_with_recompute(s: StateView, item: LogView, now: u64)
    requires
        s.logs.len() < s.max_capacity,
        s.logs.len() < usize::MAX,
        s.appends(item),
        s.synthetic_logs is None,
        s.visible_indices == s.shown(now).0,
        forall|i: int, j: int|
            0 <= i < j < s.service_options.len() ==> (#[trigger] s.service_options[i]).name != (
            #[trigger] s.service_options[j]).name,
    ensures
        s.noted(item, now).visible_indices == s.inserted(item).shown(now).0,
{
    let n = s.logs.len() as int;
    let t = s.inserted(item);
    assert(t.logs =~= s.logs.push(item));
    service::law_one_option_per_name(s.service_options, item.service);
    let old_rows = pipeline::all_rows(s.logs);
    let new_rows = pipeline::all_rows(t.logs);
    assert(new_rows.drop_last() =~= old_rows);
    assert(new_rows.last() == (Row { index: n as usize, log: item }));
    match s.filter_ast {
        Some(q) => {
            laws::law_selection_line_by_line(q, s.logs, s.service_options, now);
            laws::law_selection_line_by_line(q, t.logs, s.service_options, now);
            let pred = |r: Row| service::service_enabled(s.service_options, r.log.service) && q.accepts(r.log, now);
            reveal(Seq::filter);
            let before = old_rows.filter(pred);
            let after = new_rows.filter(pred);
            assert(after == (if pred(new_rows.last()) {
                before.push(new_rows.last())
            } else {
                before
            }));
            assert(query::indices(before.push(new_rows.last())) =~= query::indices(before).push(n as usize));
        },
        None => {
            let base = Option::<query::matcher::ExprView>::None;
            let pred = |r: Row|
                service::service_enabled(s.service_options, r.log.service) && (base matches Some(e) ==> e.holds(
                    r.log,
                ));
            reveal(Seq::filter);
            let before = old_rows.filter(pred);
            let after = new_rows.filter(pred);
            assert(after == (if pred(new_rows.last()) {
                before.push(new_rows.last())
            } else {
                before
            }));
            assert(query::indices(before.push(new_rows.last())) =~= query::indices(before).push(n as usize));
        },
    }
}

/// Whether the cursor's row is on the screen.
pub open spec fn cursor_shown(s: StateView) -> bool {
    if s.line_fold {
        s.scroll_offset <= s.cursor_row < s.scroll_offset + s.viewport_height
    } else {
        s.scroll_offset == s.cursor_row || (s.scroll_offset < s.cursor_row && s.height_between(
            s.scroll_offset,
            s.cursor_row + 1,
        ) <= s.viewport_height)
    }
}

/// The tail is followed: where nothing is being selected and the cursor stood in the
/// last visible row, or none was visible, it stands in the last visible row once a
/// line has come in, and that row is on the screen.
pub proof fn law_tail_is_followed(s: StateView, item: LogView, now: u64)
    requires
        s.visual_mode == VisualMode::Off,
        s.visible_count() == 0 || s.cursor_row >= s.visible_count() - 1,
        s.viewport_height > 0,
        s.viewport_width >= 0,
        s.scroll_offset >= 0,
        s.scrolloff >= 0,
        s.pushed(item, now).visible_count() > 0,
    ensures
        s.pushed(item, now).cursor_row == s.pushed(item, now).visible_count() - 1,
        cursor_shown(s.pushed(item, now)),
{
    let t = s.noted(item, now);
    lemma_noted(s, item, now);
    let moved = StateView { cursor_row: t.visible_count() - 1, ..t };
    let u = moved.v_adjusted();
    lemma_adjusted(moved);
    let end = StateView { cursor_row: u.visible_count() - 1, ..u }.col_clamped();
    lemma_adjusted(end);
    assert(s.at_bottom());
    assert(s.pushed(item, now) == end.v_adjusted());
    if end.line_fold {
        law_cursor_on_screen_when_cut(end);
    } else {
        law_cursor_on_screen_when_wrapped(end);
        lemma_same_heights(end, end.v_adjusted(), end.v_adjusted().scroll_offset, end.cursor_row + 1);
    }
}

/// Setting the scroll changes nothing else, and leaves it at a row.
proof fn lemma_adjusted(s: StateView)
    requires
        s.viewport_height > 0,
        s.viewport_width >= 0,
        0 <= s.cursor_row < s.visible_count(),
        s.scroll_offset >= 0,
        s.scrolloff >= 0,
    ensures
        s.v_adjusted() == (StateView { scroll_offset: s.v_adjusted().scroll_offset, ..s }),
        s.v_adjusted().scroll_offset >= 0,
        s.v_adjusted().visible_count() == s.visible_count(),
{
    reveal(StateView::v_adjusted);
    if !s.line_fold {
        law_cursor_on_screen_when_wrapped(s);
    }
}

proof fn lemma_same_heights(s: StateView, t: StateView, a: int, b: int)
    requires
        t == (StateView { scroll_offset: t.scroll_offset, ..s }),
    ensures
        s.height_between(a, b) == t.height_between(a, b),
    decreases b - a,
{
    if a < b {
        lemma_same_heights(s, t, a, b - 1);
        assert(s.visible_log(b - 1) == t.visible_log(b - 1));
    }
}

/// Noting a line leaves the screen and the mode as they are.
proof fn lemma_noted(s: StateView, item: LogView, now: u64)
    requires
        s.scroll_offset >= 0,
        s.viewport_height > 0,
    ensures
        ({
            let t = s.noted(item, now);
            &&& t.visual_mode == s.visual_mode
            &&& t.viewport_height == s.viewport_height
            &&& t.viewport_width == s.viewport_width
            &&& t.line_fold == s.line_fold
            &&& t.scrolloff == s.scrolloff
            &&& t.scroll_offset >= 0
            &&& s.pushed(item, now).visible_count() == t.visible_count()
        }),
{
    reveal(StateView::place_kept);
    reveal(StateView::v_adjusted);
    let i = s.inserted(item);
    if !s.appends(item) {
        let (visible, synthetic) = i.shown(now);
        let u = StateView { visible_indices: visible, synthetic_logs: synthetic, ..i };
        if let Some(x) = i.index_at(i.scroll_offset) {
            lemma_rank_pos(u.visible_indices, x);
        }
    }
}

proof fn lemma_rank_pos(v: Seq<usize>, x: usize)
    ensures
        view::rank(v, x) >= 0,
    decreases v.len(),
{
    if v.len() > 0 {
        lemma_rank_pos(v.drop_last(), x);
    }
}

/// Away from the tail, or while something is being selected, a line that comes in
/// behind all others leaves the cursor where it is, and the view does not move down.
pub proof fn law_cursor_stays_away_from_tail(s: StateView, item: LogView, now: u64)
    requires
        s.logs.len() < s.max_capacity,
        s.appends(item),
        s.visual_mode != VisualMode::Off || (s.visible_count() > 0 && s.cursor_row < s.visible_count() - 1),
    ensures
        s.pushed(item, now).cursor_row == s.cursor_row,
        s.pushed(item, now).cursor_col == s.cursor_col,
        s.pushed(item, now).visual_anchor == s.visual_anchor,
        s.pushed(item, now).scroll_offset <= s.scroll_offset,
        s.visual_mode != VisualMode::Off ==> s.pushed(item, now).scroll_offset == s.scroll_offset,
{
}

/// The log is what it was, without its oldest line where there was no room, and with
/// the new line put in: behind all others if it has no date, else behind the last
/// line whose date is not later, so that every dated line behind it is later.
pub proof fn law_line_is_put_in(s: StateView, item: LogView, now: u64) -> (p: int)
    ensures
        ({
            let after = s.pushed(item, now).logs;
            let kept = if s.logs.len() >= s.max_capacity && s.logs.len() > 0 {
                s.logs.subrange(1, s.logs.len() as int)
            } else {
                s.logs
            };
            &&& 0 <= p < after.len()
            &&& after[p] == item
            &&& after.remove(p) == kept
            &&& item.timestamp is None ==> p == after.len() - 1
            &&& item.timestamp matches Some(ts) ==> forall|k: int|
                p < k < after.len() && (#[trigger] after[k]).timestamp is Some ==> !text::lex_le(
                    after[k].timestamp->0,
                    ts,
                )
            &&& item.timestamp matches Some(ts) ==> p > 0 ==> after[p - 1].timestamp is Some && text::lex_le(
                after[p - 1].timestamp->0,
                ts,
            )
        }),
{
    reveal(StateView::place_kept);
    let made = s.room_made();
    let p = made.place_of(item);
    lemma_place_inside(made, item);
    lemma_follow_keeps_logs(s.noted(item, now), s.at_bottom());
    let after = s.pushed(item, now).logs;
    assert(after == made.logs.insert(p, item));
    assert(after.remove(p) =~= made.logs);
    if s.logs.len() >= s.max_capacity && s.logs.len() > 0 {
        assert(made.logs =~= s.logs.subrange(1, s.logs.len() as int));
    } else {
        assert(made.logs =~= s.logs);
    }
    if let Some(ts) = item.timestamp {
        lemma_place_for(made.logs, ts, made.logs.len() as int);
        assert forall|k: int| p < k < after.len() && (#[trigger] after[k]).timestamp is Some implies !text::lex_le(
            after[k].timestamp->0,
            ts,
        ) by {
            assert(after[k] == made.logs[k - 1]);
        }
        if p > 0 {
            assert(after[p - 1] == made.logs[p - 1]);
        }
    }
    p
}

/// A line that comes in behind all others is shown, as the last, exactly where its
/// service is on and the filter, if there is one, accepts it; no other row changes.
pub proof fn law_new_line_is_shown(s: StateView, item: LogView, now: u64)
    requires
        s.logs.len() < s.max_capacity,
        s.appends(item),
    ensures
        s.pushed(item, now).visible_indices == (if service::first_enabled(s.service_options, item.service, 0) && (
        match s.filter_ast {
            Some(q) => q.accepts(item, now),
            None => true,
        }) {
            s.visible_indices.push(s.logs.len() as usize)
        } else {
            s.visible_indices
        }),
        s.pushed(item, now).logs == s.logs.push(item),
{
    reveal(StateView::v_adjusted);
    let t = s.inserted(item);
    assert(t.logs =~= s.logs.push(item));
    lemma_follow_keeps_logs(s.noted(item, now), s.at_bottom());
}

// ---------------------------------------------------------------------------
// Keeping place
// ---------------------------------------------------------------------------

/// Among numbers in order, the rank of a number is the place where it stands or belongs.
pub proof fn law_rank_is_place(v: Seq<usize>, x: usize)
    requires
        forall|i: int, j: int| 0 <= i < j < v.len() ==> v[i] < v[j],
    ensures
        0 <= view::rank(v, x) <= v.len(),
        forall|i: int| 0 <= i < view::rank(v, x) ==> #[trigger] v[i] < x,
        forall|i: int| view::rank(v, x) <= i < v.len() ==> #[trigger] v[i] >= x,
    decreases v.len(),
{
    if v.len() > 0 {
        let front = v.drop_last();
        assert forall|i: int, j: int| 0 <= i < j < front.len() implies front[i] < front[j] by {
            assert(v[i] < v[j]);
        }
        law_rank_is_place(front, x);
        let r = view::rank(front, x);
        assert(forall|i: int| 0 <= i < front.len() ==> #[trigger] front[i] == v[i]);
        if v.last() < x {
            assert forall|i: int| 0 <= i < v.len() implies #[trigger] v[i] < x by {
                if i < v.len() - 1 {
                    assert(v[i] < v[v.len() - 1]);
                }
            }
            if r < front.len() {
                assert(front[r] >= x);
                assert(false);
            }
        } else {
            assert forall|i: int| 0 <= i < r implies #[trigger] v[i] < x by {
                assert(front[i] < x);
            }
            assert forall|i: int| r <= i < v.len() implies #[trigger] v[i] >= x by {
                if i < front.len() {
                    assert(front[i] >= x);
                }
            }
        }
    }
}

/// A line that is shown stands behind as many as have lower places.
proof fn lemma_shown_rank(s: StateView, now: u64, k: int)
    requires
        s.logs.len() <= usize::MAX,
        0 <= k < s.shown(now).0.len(),
    ensures
        view::rank(s.shown(now).0, s.shown(now).0[k]) == k,
{
    let v = s.shown(now).0;
    let x = v[k];
    assert(forall|i: int, j: int| 0 <= i < j < v.len() ==> v[i] < v[j]) by {
        match s.filter_ast {
            Some(q) => {
                laws::law_selection_in_order(q, s.logs, s.service_options, now);
                let rows = q.result(s.logs, s.service_options, now);
                assert forall|i: int, j: int| 0 <= i < j < v.len() implies v[i] < v[j] by {
                    assert(v[i] == rows[i].index && v[j] == rows[j].index);
                }
            },
            None => {
                let q = query::QueryView { base: None, pipeline: seq![] };
                laws::law_selection_in_order(q, s.logs, s.service_options, now);
                let rows = q.result(s.logs, s.service_options, now);
                assert forall|i: int, j: int| 0 <= i < j < v.len() implies v[i] < v[j] by {
                    assert(v[i] == rows[i].index && v[j] == rows[j].index);
                }
            },
        }
    }
    law_rank_is_place(v, x);
    let r = view::rank(v, x);
    assert(r == k) by {
        if r < k {
            assert(v[r] >= x);
            assert(v[r] < v[k]);
        }
        if k < r {
            assert(v[k] < x);
        }
    }
}

/// A line that is still shown after a new computation keeps the cursor.
pub proof fn law_cursor_keeps_line(s: StateView, now: u64, k: int)
    requires
        0 <= s.cursor_row < s.visible_indices.len(),
        s.logs.len() <= usize::MAX,
        0 <= k < s.shown(now).0.len(),
        s.shown(now).0[k] == s.visible_indices[s.cursor_row],
    ensures
        s.recomputed(now).cursor_row == k,
{
    reveal(StateView::place_kept);
    lemma_shown_rank(s, now, k);
}

/// The first line on the screen stays there after a new computation, where it is still
/// shown and enough lines follow it.
pub proof fn law_top_keeps_line(s: StateView, now: u64, k: int)
    requires
        0 <= s.scroll_offset < s.visible_indices.len(),
        s.logs.len() <= usize::MAX,
        0 <= k < s.shown(now).0.len(),
        s.shown(now).0[k] == s.visible_indices[s.scroll_offset],
        k + s.viewport_height <= s.recomputed(now).visible_count(),
        s.viewport_height > 0,
    ensures
        s.recomputed(now).scroll_offset == k,
{
    reveal(StateView::place_kept);
    lemma_shown_rank(s, now, k);
}

} // verus!
