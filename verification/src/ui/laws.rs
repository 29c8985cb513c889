//! What holds of the screen as a whole.

use super::prompt;
use super::row::{self, Marks, Pens};
use super::span;
use super::wrapped;
use crate::ansi::{self, Piece};
use crate::arith;
use crate::logitem::LogView;
use crate::state::view::StateView;
use crate::style::Style;
use crate::text;
use vstd::prelude::*;

verus! {

/// The text of two lines put together.
proof fn lemma_joined_concat(a: Seq<Piece>, b: Seq<Piece>)
    ensures
        ansi::joined(a + b) == ansi::joined(a) + ansi::joined(b),
    decreases b.len(),
{
    if b.len() == 0 {
        assert(a + b =~= a);
        assert(ansi::joined(a) + ansi::joined(b) =~= ansi::joined(a));
    } else {
        lemma_joined_concat(a, b.drop_last());
        assert((a + b).drop_last() =~= a + b.drop_last());
        assert(ansi::joined(a + b) =~= ansi::joined(a) + ansi::joined(b));
    }
}

/// The text of one piece.
proof fn lemma_joined_one(p: Piece)
    ensures
        ansi::joined(seq![p]) == p.text,
{
    ansi::lemma_joined_push(Seq::<Piece>::empty(), p);
    assert(Seq::<Piece>::empty().push(p) =~= seq![p]);
    assert(ansi::joined(Seq::<Piece>::empty()) =~= Seq::<char>::empty());
    assert(ansi::joined(seq![p]) =~= p.text);
}

proof fn lemma_joined_if_any(s: Seq<char>, style: Style)
    ensures
        ansi::joined(span::styled_if_any(s, style)) == s,
{
    if s.len() == 0 {
        assert(ansi::joined(Seq::<Piece>::empty()) =~= s);
    } else {
        lemma_joined_one(span::styled(s, style));
    }
}

/// A selection changes how a text is drawn and not what it says.
pub proof fn law_selection_keeps_text(s: Seq<char>, col: int, cols: Option<(int, int)>, style: Style, sel: Style)
    ensures
        ansi::joined(wrapped::runs(s, col, cols, style, sel)) == s,
{
    match cols {
        None => lemma_joined_if_any(s, style),
        Some((a, b)) => if a > b {
            lemma_joined_if_any(s, style);
        } else {
            let n = s.len() as int;
            let lo = arith::lesser(arith::less(a, col), n);
            let hi = arith::lesser(arith::less(b + 1, col), n);
            let x = span::styled_if_any(s.take(lo), style);
            let y = span::styled_if_any(s.subrange(lo, hi), sel);
            let z = span::styled_if_any(s.skip(hi), style);
            lemma_joined_if_any(s.take(lo), style);
            lemma_joined_if_any(s.subrange(lo, hi), sel);
            lemma_joined_if_any(s.skip(hi), style);
            lemma_joined_concat(x, y);
            lemma_joined_concat(x + y, z);
            assert(s.take(lo) + s.subrange(lo, hi) + s.skip(hi) =~= s);
        },
    }
}

/// The characters one by one say what they said together.
proof fn lemma_single_chars(s: Seq<char>, col: int, cols: (int, int), style: Style, sel: Style)
    ensures
        ansi::joined(row::single_chars(s, col, cols, style, sel)) == s,
    decreases s.len(),
{
    let all = row::single_chars(s, col, cols, style, sel);
    if s.len() > 0 {
        lemma_single_chars(s.drop_last(), col, cols, style, sel);
        assert(all.drop_last() =~= row::single_chars(s.drop_last(), col, cols, style, sel));
        assert(s.drop_last() + seq![s.last()] =~= s);
    } else {
        assert(ansi::joined(all) =~= s);
    }
}

/// What is drawn of the pieces from `k` on is what of the content lies in the window.
proof fn lemma_seen_pieces(
    content: Seq<char>,
    pieces: Seq<Piece>,
    k: int,
    at: int,
    win: (int, int),
    prefix: int,
    cols: Option<(int, int)>,
    p: Pens,
    m: Marks,
)
    requires
        0 <= k <= pieces.len(),
        0 <= at <= content.len(),
        0 <= win.0 <= win.1 <= content.len(),
        content.skip(at) == ansi::joined(pieces.skip(k)),
    ensures
        ansi::joined(row::seen_pieces(pieces, k, at, win, prefix, cols, p, m)) == (if win.1 <= at {
            Seq::<char>::empty()
        } else {
            content.subrange(arith::greater(win.0, at), win.1)
        }),
    decreases pieces.len() - k,
{
    let seen = row::seen_pieces(pieces, k, at, win, prefix, cols, p, m);
    if k == pieces.len() {
        assert(pieces.skip(k) =~= Seq::<Piece>::empty());
        assert(at == content.len());
        assert(ansi::joined(seen) =~= Seq::<char>::empty());
    } else {
        let text = pieces[k].text;
        let end = at + text.len();
        let tail = row::seen_pieces(pieces, k + 1, end, win, prefix, cols, p, m);
        assert(pieces.skip(k) =~= seq![pieces[k]] + pieces.skip(k + 1));
        lemma_joined_concat(seq![pieces[k]], pieces.skip(k + 1));
        lemma_joined_one(pieces[k]);
        assert(content.skip(at) =~= text + ansi::joined(pieces.skip(k + 1)));
        assert(content.skip(at).len() == content.len() - at);
        assert(content.skip(end) =~= content.skip(at).skip(text.len() as int));
        assert(content.skip(end) =~= ansi::joined(pieces.skip(k + 1)));
        assert(content.subrange(at, end) =~= content.skip(at).take(text.len() as int));
        assert(content.subrange(at, end) =~= text);
        lemma_seen_pieces(content, pieces, k + 1, end, win, prefix, cols, p, m);
        if end <= win.0 || at >= win.1 {
            assert(seen =~= tail);
        } else {
            let from = arith::less(win.0, at);
            let to = arith::lesser(win.1, end) - at;
            let part = text.subrange(from, to);
            let style = row::piece_style(pieces[k].style, p, m);
            let here = match cols {
                None => seq![span::styled(part, style)],
                Some(c) => row::single_chars(part, prefix + at + from, c, style, p.sel),
            };
            match cols {
                None => lemma_joined_one(span::styled(part, style)),
                Some(c) => lemma_single_chars(part, prefix + at + from, c, style, p.sel),
            }
            assert(seen =~= here + tail);
            lemma_joined_concat(here, tail);
            assert(part =~= content.subrange(at + from, at + to));
            assert(ansi::joined(seen) =~= content.subrange(arith::greater(win.0, at), win.1));
        }
    }
}

/// The text of a cut line is the mark, the tag, and what of the content lies in
/// the window, between the signs that some of it is cut off.
pub proof fn law_cut_line_shows_window(s: StateView, log: LogView, cols: Option<(int, int)>, p: Pens, m: Marks)
    requires
        ansi::joined(log.pieces) == log.content,
        s.h_scroll >= 0,
    ensures
        ({
            let prefix = log.prefix_len() as int;
            let n = log.content.len() as int;
            let win = s.window(prefix, n);
            ansi::joined(s.tagged_line(log, cols, p, m)) == ansi::joined(row::check_mark(p, m)) + log.tag()
                + ansi::joined(s.left_edge(prefix, n, p, m)) + log.content.subrange(win.0, win.1) + ansi::joined(
                s.right_edge(prefix, n, p, m),
            )
        }),
{
    let prefix = log.prefix_len() as int;
    let n = log.content.len() as int;
    let win = s.window(prefix, n);
    let h = row::head(log.tag(), log.service, p, m);
    let l = s.left_edge(prefix, n, p, m);
    let r = s.right_edge(prefix, n, p, m);
    let seen = row::seen_pieces(log.pieces, 0, 0, (win.0, win.1), prefix, cols, p, m);
    assert(log.pieces.skip(0) =~= log.pieces);
    assert(log.content.skip(0) =~= log.content);
    lemma_seen_pieces(log.content, log.pieces, 0, 0, (win.0, win.1), prefix, cols, p, m);
    assert(win.1 == 0 ==> log.content.subrange(win.0, win.1) =~= Seq::<char>::empty());
    ansi::lemma_joined_push(row::check_mark(p, m), span::styled(log.tag(), row::tag_style(log.service, p, m)));
    lemma_joined_concat(h, l);
    lemma_joined_concat(h + l, seen);
    lemma_joined_concat(h + l + seen, r);
}

/// A line that is filled up is as wide as it is to be, or as wide as it was.
pub proof fn law_filled_line_is_full(line: Seq<Piece>, width: int, style: Style)
    ensures
        ansi::joined(span::padded(line, width, style)).len() == arith::greater(
            ansi::joined(line).len() as int,
            width,
        ),
{
    if ansi::joined(line).len() < width {
        ansi::lemma_joined_push(line, span::styled(span::blank(width - ansi::joined(line).len()), style));
    }
}

/// The log pane holds no more lines than it has rows.
pub proof fn law_pane_holds_its_rows(s: StateView, now: u64, p: Pens)
    requires
        s.viewport_height >= 0,
        s.scroll_offset >= 0,
    ensures
        s.pane_lines(now, p).len() <= s.viewport_height,
{
    if s.line_fold {
        lemma_cut_rows_len(s, s.scroll_offset, s.cut_end(), now, p);
    } else {
        lemma_wrapped_rows_len(s, s.scroll_offset, s.viewport_height, now, p);
    }
}

proof fn lemma_cut_rows_len(s: StateView, a: int, b: int, now: u64, p: Pens)
    ensures
        s.cut_rows(a, b, now, p).len() <= arith::less(b, a),
    decreases b - a,
{
    if a < b {
        lemma_cut_rows_len(s, a, b - 1, now, p);
    }
}

proof fn lemma_wrapped_rows_len(s: StateView, r: int, room: int, now: u64, p: Pens)
    requires
        room >= 0,
    ensures
        s.wrapped_rows(r, room, now, p).len() <= room,
    decreases s.visible_count() - r,
{
    if r < s.visible_count() && room > 0 {
        let h = s.wrapped_height(r, room);
        lemma_wrapped_rows_len(s, r + 1, room - h, now, p);
    }
}

/// Whether `shown` is `s` but for white space, which may stand as a blank.
pub open spec fn shows(shown: Seq<char>, s: Seq<char>) -> bool {
    &&& shown.len() == s.len()
    &&& forall|i: int|
        0 <= i < s.len() ==> (#[trigger] shown[i]) == s[i] || (text::whitespace(s[i]) && shown[i] == ' ')
}

/// A filter in its colours says what was typed, character for character; only
/// white space may stand there as a blank. So the cursor, which is counted in
/// what was typed, stands at the right place.
pub proof fn law_colors_keep_text(s: Seq<char>)
    ensures
        shows(ansi::joined(prompt::colored(s, 0)), s),
{
    lemma_colors_keep_text(s, 0);
    assert(s.skip(0) =~= s);
}

proof fn lemma_colors_keep_text(s: Seq<char>, i: int)
    requires
        0 <= i <= s.len(),
    ensures
        shows(ansi::joined(prompt::colored(s, i)), s.skip(i)),
    decreases s.len() - i,
{
    if i < s.len() {
        prompt::lemma_token_at(s, i);
        let (piece, end) = prompt::token_at(s, i);
        let tail = prompt::colored(s, end);
        lemma_colors_keep_text(s, end);
        lemma_joined_concat(seq![piece], tail);
        lemma_joined_one(piece);
        lemma_token_text(s, i);
        let shown = piece.text + ansi::joined(tail);
        assert forall|k: int| 0 <= k < s.skip(i).len() implies (#[trigger] shown[k]) == s.skip(i)[k] || (
        text::whitespace(s.skip(i)[k]) && shown[k] == ' ') by {
            if k < piece.text.len() {
                assert(s.subrange(i, end)[k] == s[i + k]);
            } else {
                assert(s.skip(end)[k - piece.text.len()] == s[i + k]);
            }
        }
    } else {
        assert(ansi::joined(Seq::<Piece>::empty()) =~= s.skip(i));
    }
}

proof fn lemma_token_text(s: Seq<char>, i: int)
    requires
        0 <= i < s.len(),
    ensures
        shows(prompt::token_at(s, i).0.text, s.subrange(i, prompt::token_at(s, i).1)),
{
    reveal_strlit(" ");
    reveal_strlit("|");
    prompt::lemma_token_at(s, i);
}

} // verus!
