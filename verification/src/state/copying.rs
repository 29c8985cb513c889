//! What is copied of the lines.

use super::view::{self, StateView, VisualMode};
use crate::arith;
use crate::text::{self, Class};
use vstd::prelude::*;

verus! {

/// The full lines of the visible rows from `a` up to and with `b`.
pub open spec fn lines_between(s: StateView, a: int, b: int) -> Seq<Seq<char>> {
    Seq::new((b - a + 1) as nat, |i: int| s.visible_log(a + i)->0.full_line())
}

/// Whether all rows from `a` up to and with `b` hold lines.
pub open spec fn rows_held(s: StateView, a: int, b: int) -> bool {
    forall|r: int| a <= r <= b ==> (#[trigger] s.visible_log(r)) is Some
}

/// Lines put one below the other are found again between the line breaks.
pub proof fn law_stacked_lines_part(lines: Seq<Seq<char>>)
    requires
        lines.len() > 0,
        forall|i: int| 0 <= i < lines.len() ==> !(#[trigger] lines[i]).contains('\n'),
    ensures
        text::split(view::stacked(lines), '\n') == lines,
    decreases lines.len(),
{
    let first = lines[0];
    assert(!first.contains('\n'));
    if lines.len() == 1 {
        lemma_one_piece(first);
        assert(seq![first] =~= lines);
    } else {
        let rest = lines.skip(1);
        lemma_stacked_front(lines);
        assert forall|i: int| 0 <= i < rest.len() implies !(#[trigger] rest[i]).contains('\n') by {
            assert(rest[i] == lines[i + 1]);
        }
        law_stacked_lines_part(rest);
        lemma_first_piece(first, view::stacked(rest));
        assert(seq![first] + rest =~= lines);
    }
}

proof fn lemma_one_piece(a: Seq<char>)
    requires
        !a.contains('\n'),
    ensures
        text::split(a, '\n') == seq![a],
{
    text::lemma_run_end(a, 0, Class::Not('\n'));
    let n = text::run_end(a, 0, Class::Not('\n'));
    if n < a.len() {
        assert(a.contains(a[n]));
    }
}

proof fn lemma_first_piece(a: Seq<char>, b: Seq<char>)
    requires
        !a.contains('\n'),
    ensures
        text::split(a + seq!['\n'] + b, '\n') == seq![a] + text::split(b, '\n'),
{
    let s = a + seq!['\n'] + b;
    text::lemma_run_end(s, 0, Class::Not('\n'));
    let n = text::run_end(s, 0, Class::Not('\n'));
    let m = a.len() as int;
    assert(s[m] == '\n');
    if n < m {
        assert(s[n] == a[n]);
        assert(a.contains(a[n]));
    }
    assert(n == m);
    assert(s.take(m) =~= a);
    assert(s.skip(m + 1) =~= b);
}

/// Lines one below the other are the first one and, behind a line break, the others.
proof fn lemma_stacked_front(lines: Seq<Seq<char>>)
    requires
        lines.len() > 1,
    ensures
        view::stacked(lines) == lines[0] + seq!['\n'] + view::stacked(lines.skip(1)),
    decreases lines.len(),
{
    let front = lines.drop_last();
    let rest = lines.skip(1);
    reveal_with_fuel(view::stacked, 3);
    if lines.len() == 2 {
        assert(rest =~= seq![lines[1]]);
        assert(front =~= seq![lines[0]]);
    } else {
        lemma_stacked_front(front);
        assert(front.skip(1) =~= rest.drop_last());
        assert(front[0] == lines[0]);
        assert(rest.last() == lines.last());
        assert(view::stacked(lines) =~= lines[0] + seq!['\n'] + view::stacked(rest));
    }
}

/// The text of the selected rows is that of what is selected in each.
proof fn lemma_rows(s: StateView, a: int, b: int)
    requires
        a <= b + 1,
        rows_held(s, a, b),
    ensures
        s.selected_rows(a, b + 1) == Seq::new(
            (b - a + 1) as nat,
            |i: int| s.selected_in(a + i, s.visible_log(a + i)->0.full_line()),
        ),
    decreases b - a + 1,
{
    let all = Seq::new((b - a + 1) as nat, |i: int| s.selected_in(a + i, s.visible_log(a + i)->0.full_line()));
    if a <= b {
        lemma_rows(s, a, b - 1);
        assert(s.visible_log(b) is Some);
        assert(s.selected_rows(a, b + 1) =~= all);
    } else {
        assert(s.selected_rows(a, b + 1) =~= all);
    }
}

proof fn lemma_last_length(lines: Seq<Seq<char>>)
    requires
        lines.len() > 0,
    ensures
        view::stacked(lines).len() >= lines.last().len(),
        view::stacked(lines).len() >= lines[0].len(),
        lines.len() == 1 ==> view::stacked(lines) == lines[0],
    decreases lines.len(),
{
    if lines.len() > 1 {
        lemma_last_length(lines.drop_last());
        assert(lines.drop_last()[0] == lines[0]);
    }
}

/// Lines one below the other, cut short at the beginning of the first and at the end
/// of the last, are all of them cut short at the two ends.
proof fn lemma_cut_ends(lines: Seq<Seq<char>>, cut: Seq<Seq<char>>, from: int, to: int)
    requires
        lines.len() > 1,
        cut.len() == lines.len(),
        0 <= from <= lines[0].len(),
        0 <= to <= lines.last().len(),
        cut[0] == lines[0].skip(from),
        cut.last() == lines.last().take(to),
        forall|i: int| 0 < i < lines.len() - 1 ==> #[trigger] cut[i] == lines[i],
    ensures
        view::stacked(cut) == view::stacked(lines).subrange(from, view::stacked(lines).len() - lines.last().len() + to),
{
    let n = lines.len() as int;
    let head = lines.drop_last();
    let cut_head = cut.drop_last();
    lemma_last_length(lines);
    lemma_last_length(head);
    lemma_cut_front(head, cut_head, from);
    let whole = view::stacked(lines);
    assert(head[0] == lines[0]);
    assert(view::stacked(cut) =~= whole.subrange(from, whole.len() - lines.last().len() + to));
}

proof fn lemma_cut_front(lines: Seq<Seq<char>>, cut: Seq<Seq<char>>, from: int)
    requires
        lines.len() > 0,
        cut.len() == lines.len(),
        0 <= from <= lines[0].len(),
        cut[0] == lines[0].skip(from),
        forall|i: int| 0 < i < lines.len() ==> #[trigger] cut[i] == lines[i],
    ensures
        view::stacked(cut) == view::stacked(lines).skip(from),
    decreases lines.len(),
{
    if lines.len() > 1 {
        let (a, b) = (lines.drop_last(), cut.drop_last());
        lemma_cut_front(a, b, from);
        lemma_last_length(a);
        assert(cut[lines.len() - 1] == lines[lines.len() - 1]);
        assert(view::stacked(cut) =~= view::stacked(lines).skip(from));
    }
}

/// Selected by characters, the text is one stretch of the full lines from the first
/// corner's row to the last corner's, one below the other: it begins at the first
/// corner and ends with the last one, as far as their lines reach, and leaves nothing
/// out in between.
pub proof fn law_characters_are_one_stretch(s: StateView, row: int, col: int, last_row: int, last_col: int)
    requires
        s.toggled_lines.is_empty(),
        s.visual_mode == VisualMode::Character,
        s.visual_anchor matches Some(a) && ((row == a.0 && col == a.1 && last_row == s.cursor_row && last_col
            == s.cursor_col) || (last_row == a.0 && last_col == a.1 && row == s.cursor_row && col == s.cursor_col)),
        row < last_row || (row == last_row && col <= last_col),
        0 <= row,
        0 <= col,
        0 <= last_col,
        rows_held(s, row, last_row),
    ensures
        ({
            let lines = lines_between(s, row, last_row);
            let whole = view::stacked(lines);
            s.selected_text() == Some(
                whole.subrange(
                    arith::lesser(col, lines[0].len() as int),
                    whole.len() - lines.last().len() + arith::lesser(last_col + 1, lines.last().len() as int),
                ),
            )
        }),
{
    reveal(StateView::selected_text);
    let lines = lines_between(s, row, last_row);
    let whole = view::stacked(lines);
    let cut = s.selected_rows(row, last_row + 1);
    lemma_rows(s, row, last_row);
    lemma_last_length(lines);
    lemma_last_length(cut);
    assert(s.corners() == ((row, col), (last_row, last_col)));
    let from = arith::lesser(col, lines[0].len() as int);
    let to = arith::lesser(last_col + 1, lines.last().len() as int);
    let n = lines.len() as int;
    assert(lines[0] == s.visible_log(row + 0)->0.full_line());
    assert(lines.last() == s.visible_log(last_row)->0.full_line());
    if row == last_row {
        assert(cut[0] == s.selected_in(row, lines[0]));
        assert(cut[0] =~= whole.subrange(from, whole.len() - lines.last().len() + to));
    } else {
        assert(cut[0] == s.selected_in(row + 0, lines[0]));
        assert(cut[0] =~= lines[0].skip(from));
        assert(cut.last() == s.selected_in(last_row, lines.last()));
        assert(cut.last() =~= lines.last().take(to));
        assert forall|i: int| 0 < i < n - 1 implies #[trigger] cut[i] == lines[i] by {
            assert(cut[i] == s.selected_in(row + i, lines[i]));
        }
        lemma_cut_ends(lines, cut, from, to);
    }
}

/// Selected by lines, the text is the full lines of all selected rows.
pub proof fn law_lines_are_whole(s: StateView, first: int, last: int)
    requires
        s.toggled_lines.is_empty(),
        s.visual_mode == VisualMode::Line,
        s.visual_anchor matches Some(a) && ((first == a.0 && last == s.cursor_row) || (last == a.0 && first
            == s.cursor_row)),
        first <= last,
        rows_held(s, first, last),
    ensures
        s.selected_text() == Some(view::stacked(lines_between(s, first, last))),
{
    reveal(StateView::selected_text);
    lemma_rows(s, first, last);
    assert(s.selected_rows(first, last + 1) =~= lines_between(s, first, last));
}

/// Selected as a block, the text is of each selected row the columns between those of
/// the two corners, both with them, as far as the line reaches.
pub proof fn law_block_is_columns(s: StateView, first: int, last: int, left: int, right: int)
    requires
        s.toggled_lines.is_empty(),
        s.visual_mode == VisualMode::Block,
        s.visual_anchor matches Some(a) && ((first == a.0 && last == s.cursor_row) || (last == a.0 && first
            == s.cursor_row)) && ((left == a.1 && right == s.cursor_col) || (right == a.1 && left == s.cursor_col)),
        first <= last,
        0 <= left <= right,
        rows_held(s, first, last),
    ensures
        s.selected_text() == Some(
            view::stacked(
                Seq::new(
                    (last - first + 1) as nat,
                    |i: int|
                        {
                            let line = lines_between(s, first, last)[i];
                            line.subrange(
                                arith::lesser(left, line.len() as int),
                                arith::lesser(right + 1, line.len() as int),
                            )
                        },
                ),
            ),
        ),
{
    reveal(StateView::selected_text);
    lemma_rows(s, first, last);
    let lines = lines_between(s, first, last);
    let parts = Seq::new(
        (last - first + 1) as nat,
        |i: int|
            {
                let line = lines_between(s, first, last)[i];
                line.subrange(arith::lesser(left, line.len() as int), arith::lesser(right + 1, line.len() as int))
            },
    );
    let rows = s.selected_rows(first, last + 1);
    assert(rows.len() == parts.len());
    assert forall|i: int| 0 <= i < rows.len() implies #[trigger] rows[i] == parts[i] by {
        let line = lines[i];
        assert(line == s.visible_log(first + i)->0.full_line());
        assert(rows[i] =~= parts[i]);
    }
    assert(rows =~= parts);
}

/// It does not matter which corner of a selection was set first.
pub proof fn law_corners_interchange(s: StateView)
    requires
        s.visual_anchor is Some,
        0 <= s.cursor_row <= usize::MAX,
        0 <= s.cursor_col <= usize::MAX,
    ensures
        ({
            let a = s.visual_anchor->0;
            (StateView {
                visual_anchor: Some((s.cursor_row as usize, s.cursor_col as usize)),
                cursor_row: a.0 as int,
                cursor_col: a.1 as int,
                ..s
            }).selected_text() == s.selected_text()
        }),
{
    reveal(StateView::selected_text);
    let a = s.visual_anchor->0;
    let t = StateView {
        visual_anchor: Some((s.cursor_row as usize, s.cursor_col as usize)),
        cursor_row: a.0 as int,
        cursor_col: a.1 as int,
        ..s
    };
    let low = arith::lesser(a.0 as int, s.cursor_row);
    let high = arith::greater(a.0 as int, s.cursor_row);
    lemma_same_rows(s, t, low, high + 1);
    lemma_same_marks(s, t, s.logs.len() as int);
}

proof fn lemma_same_rows(s: StateView, t: StateView, a: int, b: int)
    requires
        s.visual_anchor is Some,
        t.visual_anchor is Some,
        s.visual_mode == t.visual_mode,
        s.logs == t.logs,
        s.visible_indices == t.visible_indices,
        s.synthetic_logs == t.synthetic_logs,
        s.corners() == t.corners(),
        (s.visual_anchor->0).1 == t.cursor_col,
        (t.visual_anchor->0).1 == s.cursor_col,
    ensures
        s.selected_rows(a, b) == t.selected_rows(a, b),
    decreases b - a,
{
    if a < b {
        lemma_same_rows(s, t, a, b - 1);
        assert(s.visible_log(b - 1) == t.visible_log(b - 1));
    }
}

proof fn lemma_same_marks(s: StateView, t: StateView, n: int)
    requires
        s.logs == t.logs,
        s.toggled_lines == t.toggled_lines,
    ensures
        s.marked(n) == t.marked(n),
    decreases n,
{
    if 0 < n <= s.logs.len() {
        lemma_same_marks(s, t, n - 1);
    }
}

/// The places of the log, in order.
pub open spec fn places(n: int) -> Seq<int> {
    Seq::new(n as nat, |i: int| i)
}

/// Where lines are marked, the text is the marked lines in full, in the order of the log.
pub proof fn law_marked_lines_are_copied(s: StateView)
    requires
        !s.toggled_lines.is_empty(),
    ensures
        s.selected_text() == Some(
            view::stacked(
                places(s.logs.len() as int).filter(|i: int| s.toggled_lines.contains(i as usize)).map_values(
                    |i: int| s.logs[i].full_line(),
                ),
            ),
        ),
{
    reveal(StateView::selected_text);
    lemma_marked(s, s.logs.len() as int);
}

proof fn lemma_marked(s: StateView, n: int)
    requires
        0 <= n <= s.logs.len(),
    ensures
        s.marked(n) == places(n).filter(|i: int| s.toggled_lines.contains(i as usize)).map_values(
            |i: int| s.logs[i].full_line(),
        ),
    decreases n,
{
    let p = |i: int| s.toggled_lines.contains(i as usize);
    let f = |i: int| s.logs[i].full_line();
    reveal(Seq::filter);
    if n > 0 {
        lemma_marked(s, n - 1);
        assert(places(n).drop_last() =~= places(n - 1));
        assert(places(n).last() == n - 1);
        assert(places(n - 1).filter(p).push(n - 1).map_values(f) =~= places(n - 1).filter(p).map_values(f).push(
            s.logs[n - 1].full_line(),
        ));
        assert(s.marked(n) =~= places(n).filter(p).map_values(f));
    } else {
        assert(s.marked(n) =~= places(n).filter(p).map_values(f));
    }
}

} // verus!
