//! How wide text is on the screen and how long lines are wrapped.

use crate::logitem::LogItem;
use crate::text::{self, chars_of, pieces, skip_end, string_of, Class};
use vstd::prelude::*;
use vstd::slice::slice_subrange;
use vstd::utf8::*;

verus! {

// ---------------------------------------------------------------------------
// Display width
// ---------------------------------------------------------------------------

/// A character that takes up two cells.
pub open spec fn wide(c: char) -> bool {
    ||| '\u{1100}' <= c <= '\u{115F}'
    ||| '\u{2329}' <= c <= '\u{232A}'
    ||| '\u{2E80}' <= c <= '\u{303E}'
    ||| '\u{3040}' <= c <= '\u{A4CF}'
    ||| '\u{AC00}' <= c <= '\u{D7A3}'
    ||| '\u{F900}' <= c <= '\u{FAFF}'
    ||| '\u{FE10}' <= c <= '\u{FE19}'
    ||| '\u{FE30}' <= c <= '\u{FE6F}'
    ||| '\u{FF00}' <= c <= '\u{FF60}'
    ||| '\u{FFE0}' <= c <= '\u{FFE6}'
    ||| '\u{1F300}' <= c <= '\u{1FAFF}'
    ||| '\u{2600}' <= c <= '\u{27BF}'
}

/// The number of cells that a character takes up.
pub open spec fn width(c: char) -> int {
    if !(' ' <= c) {
        0
    } else if '~' >= c {
        1
    } else if wide(c) {
        2
    } else {
        1
    }
}

pub fn char_display_width(c: char) -> (r: usize)
    ensures
        r == width(c),
{
    if !(' ' <= c) {
        0
    } else if '~' >= c {
        1
    } else if ('\u{1100}' <= c && c <= '\u{115F}') || ('\u{2329}' <= c && c <= '\u{232A}') || ('\u{2E80}' <= c && c
        <= '\u{303E}') || ('\u{3040}' <= c && c <= '\u{A4CF}') || ('\u{AC00}' <= c && c <= '\u{D7A3}') || (
    '\u{F900}' <= c && c <= '\u{FAFF}') || ('\u{FE10}' <= c && c <= '\u{FE19}') || ('\u{FE30}' <= c && c
        <= '\u{FE6F}') || ('\u{FF00}' <= c && c <= '\u{FF60}') || ('\u{FFE0}' <= c && c <= '\u{FFE6}') || (
    '\u{1F300}' <= c && c <= '\u{1FAFF}') || ('\u{2600}' <= c && c <= '\u{27BF}') {
        2
    } else {
        1
    }
}

/// The number of cells that the first `n` characters take up.
pub open spec fn width_up_to(s: Seq<char>, n: int) -> int
    decreases n,
{
    if n <= 0 {
        0
    } else if n > s.len() {
        width_up_to(s, s.len() as int)
    } else {
        width_up_to(s, n - 1) + width(s[n - 1])
    }
}

/// Characters take up at most two cells each.
pub proof fn lemma_width(s: Seq<char>, n: int)
    requires
        0 <= n <= s.len(),
    ensures
        0 <= width_up_to(s, n) <= 2 * n,
        forall|m: int| 0 <= m <= n ==> #[trigger] width_up_to(s, m) <= width_up_to(s, n),
    decreases n,
{
    if n > 0 {
        lemma_width(s, n - 1);
    }
}

/// The first character and those behind it.
proof fn lemma_width_first(s: Seq<char>, n: int)
    requires
        1 <= n <= s.len(),
    ensures
        width_up_to(s, n) == width(s[0]) + width_up_to(s.drop_first(), n - 1),
    decreases n,
{
    if n > 1 {
        lemma_width_first(s, n - 1);
        assert(s.drop_first()[n - 2] == s[n - 1]);
    } else {
        assert(width_up_to(s, 0) == 0);
    }
}

/// A text takes up no more cells than bytes.
proof fn lemma_width_in_bytes(s: Seq<char>, n: int)
    requires
        0 <= n <= s.len(),
    ensures
        width_up_to(s, n) <= encode_utf8(s).len(),
    decreases n,
{
    if n > 0 {
        lemma_width_first(s, n);
        lemma_width_in_bytes(s.drop_first(), n - 1);
        char_is_scalar(s[0]);
    }
}

pub fn str_display_width_up_to(s: &str, char_limit: usize) -> (r: usize)
    ensures
        r == width_up_to(s@, char_limit as int),
{
    let bytes: usize = s.as_bytes().len();
    let v = chars_of(s);
    let mut total: usize = 0;
    let mut i: usize = 0;
    let end: usize = if char_limit < v.len() {
        char_limit
    } else {
        v.len()
    };
    assert(width_up_to(s@, char_limit as int) == width_up_to(s@, end as int));
    while i < end
        invariant
            i <= end <= v@.len(),
            v@ == s@,
            bytes == encode_utf8(s@).len(),
            total == width_up_to(s@, i as int),
        decreases end - i,
    {
        proof {
            lemma_width_in_bytes(s@, i + 1);
            assert(width_up_to(s@, i + 1) == width_up_to(s@, i as int) + width(s@[i as int]));
        }
        total += char_display_width(v[i]);
        i += 1;
    }
    total
}

/// The first place from `i` on at which the text, with `used` cells taken up
/// before it, goes beyond `target` cells; the end of the text if there is none.
pub open spec fn char_at(s: Seq<char>, i: int, used: int, target: int) -> int
    decreases s.len() - i,
{
    if !(0 <= i < s.len()) {
        i
    } else if used + width(s[i]) > target {
        i
    } else {
        char_at(s, i + 1, used + width(s[i]), target)
    }
}

/// The character under a cell is the first whose right edge lies beyond it:
/// what stands before it fits, and it does not.
pub proof fn law_char_at_is_first_beyond(s: Seq<char>, target: int)
    requires
        target >= 0,
    ensures
        width_up_to(s, char_at(s, 0, 0, target)) <= target,
        char_at(s, 0, 0, target) < s.len() ==> width_up_to(s, char_at(s, 0, 0, target) + 1) > target,
{
    lemma_char_at_width(s, 0, target);
}

proof fn lemma_char_at_width(s: Seq<char>, i: int, target: int)
    requires
        0 <= i <= s.len(),
        width_up_to(s, i) <= target,
    ensures
        ({
            let k = char_at(s, i, width_up_to(s, i), target);
            &&& i <= k <= s.len()
            &&& width_up_to(s, k) <= target
            &&& k < s.len() ==> width_up_to(s, k + 1) > target
        }),
    decreases s.len() - i,
{
    if i < s.len() {
        assert(width_up_to(s, i + 1) == width_up_to(s, i) + width(s[i]));
        if width_up_to(s, i) + width(s[i]) <= target {
            lemma_char_at_width(s, i + 1, target);
        }
    }
}

/// The number of characters that fit into `target_width` cells.
pub fn char_at_display_width(s: &str, target_width: usize) -> (r: usize)
    ensures
        r == char_at(s@, 0, 0, target_width as int),
        r <= s@.len(),
{
    let v = chars_of(s);
    let mut used: usize = 0;
    let mut i: usize = 0;
    while i < v.len()
        invariant
            i <= v@.len(),
            v@ == s@,
            used <= target_width,
            char_at(s@, 0, 0, target_width as int) == char_at(s@, i as int, used as int, target_width as int),
        decreases v@.len() - i,
    {
        let w: usize = char_display_width(v[i]);
        if w > target_width - used {
            return i;
        }
        used += w;
        i += 1;
    }
    i
}

// ---------------------------------------------------------------------------
// Wrapping
// ---------------------------------------------------------------------------

/// The room for content beside a prefix and a margin of two cells; at least one cell.
pub open spec fn content_width(viewport_width: int, prefix_len: int) -> int {
    if viewport_width - (prefix_len + 2) < 1 {
        1
    } else {
        viewport_width - (prefix_len + 2)
    }
}

pub fn get_unfolded_content_width(viewport_width: usize, prefix_len: usize) -> (r: usize)
    ensures
        r == content_width(viewport_width as int, prefix_len as int),
        r > 0,
{
    let room: usize = viewport_width.saturating_sub(prefix_len).saturating_sub(2);
    if room < 1 {
        1
    } else {
        room
    }
}

/// A part of a line as it stands on one row of the screen.
#[derive(Debug, Clone)]
pub struct VisualChunk {
    pub text: String,
    pub content_char_start: usize,
    pub has_continuation: bool,
}

/// What a part holds.
#[verifier::ext_equal]
pub struct ChunkView {
    pub text: Seq<char>,
    pub start: int,
    pub cont: bool,
}

impl View for VisualChunk {
    type V = ChunkView;

    open spec fn view(&self) -> ChunkView {
        ChunkView { text: self.text@, start: self.content_char_start as int, cont: self.has_continuation }
    }
}

/// What each part of a list holds.
pub open spec fn chunks_view(v: Seq<VisualChunk>) -> Seq<ChunkView> {
    v.map_values(|c: VisualChunk| c@)
}

/// The parts of a line from `i` on, each of `w` characters but for the last.
/// `start` is the place of the line, `last` whether no other line follows.
pub open spec fn line_chunks(line: Seq<char>, i: int, w: int, start: int, last: bool) -> Seq<ChunkView>
    decreases line.len() - i,
{
    if !(0 <= i < line.len() && w > 0) {
        seq![]
    } else {
        let e = if i + w < line.len() {
            i + w
        } else {
            line.len() as int
        };
        seq![ChunkView { text: line.subrange(i, e), start: start + i, cont: !(last && e == line.len()) }]
            + line_chunks(line, e, w, start, last)
    }
}

/// A line without the carriage returns at its end.
pub open spec fn clean(line: Seq<char>) -> Seq<char> {
    text::trim_end(line, Class::Is('\r'))
}

/// The parts of one line; an empty line is one empty part.
pub open spec fn whole_line(line: Seq<char>, w: int, start: int, last: bool) -> Seq<ChunkView> {
    if line.len() == 0 {
        seq![ChunkView { text: seq![], start, cont: !last }]
    } else {
        line_chunks(line, 0, w, start, last)
    }
}

/// The parts of the lines from `k` on.
pub open spec fn lines_chunks(lines: Seq<Seq<char>>, k: int, w: int, start: int) -> Seq<ChunkView>
    decreases lines.len() - k,
{
    if !(0 <= k < lines.len()) {
        seq![]
    } else {
        let line = clean(lines[k]);
        whole_line(line, w, start, k + 1 == lines.len()) + lines_chunks(lines, k + 1, w, start + line.len() + 1)
    }
}

/// The rows that a content takes up when it is wrapped at `w` characters.
pub open spec fn chunks_of(content: Seq<char>, w: int) -> Seq<ChunkView> {
    lines_chunks(text::split(content, '\n'), 0, w, 0)
}

/// Whether every line of the content is empty.
pub open spec fn all_blank(content: Seq<char>) -> bool {
    forall|k: int|
        0 <= k < text::split(content, '\n').len() ==> clean(#[trigger] text::split(content, '\n')[k]).len() == 0
}

/// The room that lines from `k` on and the breaks between them take up.
spec fn lines_len(lines: Seq<Seq<char>>, k: int) -> int
    decreases lines.len() - k,
{
    if !(0 <= k < lines.len()) {
        0
    } else {
        lines[k].len() + 1 + lines_len(lines, k + 1)
    }
}

proof fn lemma_lines_len_tail(head: Seq<char>, lines: Seq<Seq<char>>, k: int)
    requires
        0 <= k <= lines.len(),
    ensures
        lines_len(seq![head] + lines, k + 1) == lines_len(lines, k),
    decreases lines.len() - k,
{
    if k < lines.len() {
        assert((seq![head] + lines)[k + 1] == lines[k]);
        lemma_lines_len_tail(head, lines, k + 1);
    }
}

proof fn lemma_split_len(s: Seq<char>, c: char)
    ensures
        lines_len(text::split(s, c), 0) == s.len() + 1,
    decreases s.len(),
{
    match text::split_once(s, c) {
        Some((head, tail)) => {
            text::lemma_run_end(s, 0, Class::Not(c));
            lemma_split_len(tail, c);
            lemma_lines_len_tail(head, text::split(tail, c), 0);
            assert(text::split(s, c)[0] == head);
        },
        None => {
            assert(text::split(s, c) =~= seq![s]);
            assert(lines_len(seq![s], 1) == 0);
        },
    }
}

/// The parts of a line fit in before its end.
proof fn lemma_line_chunks(line: Seq<char>, i: int, w: int, start: int, last: bool)
    requires
        0 <= i <= line.len(),
    ensures
        forall|j: int|
            0 <= j < line_chunks(line, i, w, start, last).len() ==> start <= (#[trigger] line_chunks(
                line,
                i,
                w,
                start,
                last,
            )[j]).start && line_chunks(line, i, w, start, last)[j].start + line_chunks(
                line,
                i,
                w,
                start,
                last,
            )[j].text.len() <= start + line.len(),
        line_chunks(line, i, w, start, last).len() <= line.len() - i,
    decreases line.len() - i,
{
    if i < line.len() && w > 0 {
        let e = if i + w < line.len() {
            i + w
        } else {
            line.len() as int
        };
        lemma_line_chunks(line, e, w, start, last);
    }
}

proof fn lemma_lines_chunks(lines: Seq<Seq<char>>, k: int, w: int, start: int)
    requires
        0 <= k <= lines.len(),
        start >= 0,
    ensures
        forall|j: int|
            0 <= j < lines_chunks(lines, k, w, start).len() ==> 0 <= (#[trigger] lines_chunks(
                lines,
                k,
                w,
                start,
            )[j]).start && lines_chunks(lines, k, w, start)[j].start + lines_chunks(
                lines,
                k,
                w,
                start,
            )[j].text.len() < start + lines_len(lines, k),
        lines_chunks(lines, k, w, start).len() <= lines_len(lines, k),
    decreases lines.len() - k,
{
    if k < lines.len() {
        let line = clean(lines[k]);
        text::lemma_run_start(lines[k], lines[k].len() as int, Class::Is('\r'));
        lemma_line_chunks(line, 0, w, start, k + 1 == lines.len());
        lemma_lines_chunks(lines, k + 1, w, start + line.len() + 1);
        let here = whole_line(line, w, start, k + 1 == lines.len());
        let rest = lines_chunks(lines, k + 1, w, start + line.len() + 1);
        let all = lines_chunks(lines, k, w, start);
        assert(all == here + rest);
        assert(lines_len(lines, k) == lines[k].len() + 1 + lines_len(lines, k + 1));
        assert(lines_len(lines, k + 1) >= 0) by {
            lemma_lines_len_pos(lines, k + 1);
        }
        assert forall|j: int| 0 <= j < all.len() implies 0 <= (#[trigger] all[j]).start && all[j].start
            + all[j].text.len() < start + lines_len(lines, k) by {
            if j < here.len() {
                assert(all[j] == here[j]);
            } else {
                assert(all[j] == rest[j - here.len()]);
            }
        }
    }
}

proof fn lemma_lines_len_pos(lines: Seq<Seq<char>>, k: int)
    ensures
        lines_len(lines, k) >= 0,
    decreases lines.len() - k,
{
    if 0 <= k < lines.len() {
        lemma_lines_len_pos(lines, k + 1);
    }
}

/// Every part lies inside the content, and there are at most as many parts as
/// characters and one more.
pub proof fn law_chunks_inside(content: Seq<char>, w: int)
    ensures
        forall|j: int|
            0 <= j < chunks_of(content, w).len() ==> 0 <= (#[trigger] chunks_of(content, w)[j]).start && chunks_of(
                content,
                w,
            )[j].start + chunks_of(content, w)[j].text.len() <= content.len(),
        chunks_of(content, w).len() <= content.len() + 1,
{
    lemma_split_len(content, '\n');
    lemma_lines_chunks(text::split(content, '\n'), 0, w, 0);
}

fn push_line_chunks(out: &mut Vec<VisualChunk>, line: &[char], w: usize, start: usize, last: bool)
    requires
        w > 0,
        start + line@.len() <= usize::MAX,
    ensures
        chunks_view(final(out)@) == chunks_view(old(out)@) + line_chunks(line@, 0, w as int, start as int, last),
{
    let ghost all = line_chunks(line@, 0, w as int, start as int, last);
    let ghost base = chunks_view(out@);
    let mut i: usize = 0;
    assert(chunks_view(out@) + all =~= base + all);
    while i < line.len()
        invariant
            i <= line@.len(),
            w > 0,
            start + line@.len() <= usize::MAX,
            all == line_chunks(line@, 0, w as int, start as int, last),
            chunks_view(out@) + line_chunks(line@, i as int, w as int, start as int, last) == base + all,
        decreases line@.len() - i,
    {
        let e: usize = if w < line.len() - i {
            i + w
        } else {
            line.len()
        };
        let ghost before = out@;
        let chunk = VisualChunk {
            text: string_of(slice_subrange(line, i, e)),
            content_char_start: start + i,
            has_continuation: !(last && e == line.len()),
        };
        let ghost view = chunk@;
        out.push(chunk);
        assert(chunks_view(out@) =~= chunks_view(before).push(view));
        assert(chunks_view(out@) + line_chunks(line@, e as int, w as int, start as int, last) =~= chunks_view(before)
            + line_chunks(line@, i as int, w as int, start as int, last));
        i = e;
    }
    assert(chunks_view(out@) =~= base + all);
}

/// Wraps a content at `content_width` characters.
pub fn get_log_visual_chunks(content: &str, content_width: usize) -> (r: Vec<VisualChunk>)
    requires
        content_width > 0 || all_blank(content@),
    ensures
        chunks_view(r@) == chunks_of(content@, content_width as int),
{
    let v = chars_of(content);
    let lines = pieces(v.as_slice(), '\n');
    let ghost views = text::views(lines@);
    let total: usize = v.len();
    let mut chunks: Vec<VisualChunk> = Vec::new();
    let mut offset: usize = 0;
    let mut k: usize = 0;
    proof {
        lemma_split_len(content@, '\n');
        assert(chunks_view(chunks@) + chunks_of(content@, content_width as int) =~= chunks_of(
            content@,
            content_width as int,
        ));
    }
    while k < lines.len()
        invariant
            k <= lines@.len(),
            total == content@.len(),
            content_width > 0 || all_blank(content@),
            views == text::views(lines@),
            views == text::split(content@, '\n'),
            k < lines@.len() ==> offset + lines_len(views, k as int) <= total + 1,
            chunks_view(chunks@) + lines_chunks(views, k as int, content_width as int, offset as int) == chunks_of(
                content@,
                content_width as int,
            ),
        decreases lines@.len() - k,
    {
        assert(views[k as int] == lines@[k as int]@);
        assert(clean(text::split(content@, '\n')[k as int]) == clean(lines@[k as int]@));
        let last: bool = k + 1 == lines.len();
        let line = skip_end(lines[k], Class::Is('\r'));
        let ghost before = chunks@;
        let ghost here = whole_line(line@, content_width as int, offset as int, last);
        proof {
            text::lemma_run_start(views[k as int], views[k as int].len() as int, Class::Is('\r'));
            lemma_lines_len_pos(views, k + 1);
            if k + 1 < lines@.len() {
                lemma_lines_len_pos(views, k + 2);
            }
        }
        if line.len() == 0 {
            let chunk = VisualChunk { text: String::new(), content_char_start: offset, has_continuation: !last };
            let ghost view = chunk@;
            chunks.push(chunk);
            assert(view =~= here[0]);
            assert(chunks_view(chunks@) =~= chunks_view(before) + here);
        } else {
            push_line_chunks(&mut chunks, line, content_width, offset, last);
        }
        assert(chunks_view(chunks@) + lines_chunks(
            views,
            k + 1,
            content_width as int,
            offset + line@.len() + 1,
        ) =~= chunks_view(before) + lines_chunks(views, k as int, content_width as int, offset as int));
        if !last {
            offset = offset + line.len() + 1;
        }
        k += 1;
    }
    assert(chunks_view(chunks@) =~= chunks_of(content@, content_width as int));
    chunks
}

/// The number of rows that a line of `n` characters takes up.
pub open spec fn rows_for(n: int, w: int) -> int {
    if n == 0 {
        1
    } else {
        (n + w - 1) / w
    }
}

/// The number of rows that the lines from `k` on take up.
pub open spec fn lines_rows(lines: Seq<Seq<char>>, k: int, w: int) -> int
    decreases lines.len() - k,
{
    if !(0 <= k < lines.len()) {
        0
    } else {
        rows_for(clean(lines[k]).len() as int, w) + lines_rows(lines, k + 1, w)
    }
}

/// The number of rows that a content takes up.
pub open spec fn visual_lines(content: Seq<char>, w: int) -> int {
    if w == 0 {
        1
    } else {
        lines_rows(text::split(content, '\n'), 0, w)
    }
}

proof fn lemma_rows_for(n: int, w: int)
    requires
        n >= 0,
        w > 0,
    ensures
        1 <= rows_for(n, w) <= n + 1,
        n > 0 ==> rows_for(n, w) <= n,
        n > 0 ==> rows_for(n, w) == n / w + (if n % w == 0 {
            0int
        } else {
            1int
        }),
        n > w ==> rows_for(n, w) == 1 + rows_for(n - w, w),
        0 < n <= w ==> rows_for(n, w) == 1,
{
    if n > 0 {
        let q = n / w;
        let m = n % w;
        assert(n == w * q + m && 0 <= m < w && 0 <= q) by (nonlinear_arith)
            requires
                q == n / w,
                m == n % w,
                w > 0,
                n > 0,
        ;
        assert((n + w - 1) / w == (if m == 0 {
            q
        } else {
            q + 1
        })) by (nonlinear_arith)
            requires
                n == w * q + m,
                0 <= m < w,
                w > 0,
        ;
        assert(q <= n) by (nonlinear_arith)
            requires
                n == w * q + m,
                0 <= m,
                w > 0,
                0 <= q,
        ;
        assert(m != 0 ==> q + 1 <= n) by (nonlinear_arith)
            requires
                n == w * q + m,
                0 <= m,
                w > 0,
                0 <= q,
        ;
        assert(m == 0 ==> q >= 1) by (nonlinear_arith)
            requires
                n == w * q + m,
                n > 0,
                w > 0,
        ;
        if n > w {
            assert((n + w - 1) / w == 1 + ((n - w) + w - 1) / w) by (nonlinear_arith)
                requires
                    w > 0,
            ;
        }
        if n <= w {
            assert((n + w - 1) / w == 1) by (nonlinear_arith)
                requires
                    0 < n <= w,
            ;
        }
    }
}

proof fn lemma_line_rows(line: Seq<char>, i: int, w: int, start: int, last: bool)
    requires
        0 <= i < line.len(),
        w > 0,
    ensures
        line_chunks(line, i, w, start, last).len() == rows_for(line.len() - i, w),
    decreases line.len() - i,
{
    lemma_rows_for(line.len() - i, w);
    if i + w < line.len() {
        lemma_line_rows(line, i + w, w, start, last);
    } else {
        assert(line_chunks(line, line.len() as int, w, start, last).len() == 0);
    }
}

proof fn lemma_lines_rows(lines: Seq<Seq<char>>, k: int, w: int, start: int)
    requires
        0 <= k <= lines.len(),
        w > 0,
    ensures
        lines_chunks(lines, k, w, start).len() == lines_rows(lines, k, w),
        lines_rows(lines, k, w) >= lines.len() - k,
    decreases lines.len() - k,
{
    if k < lines.len() {
        let line = clean(lines[k]);
        text::lemma_run_start(lines[k], lines[k].len() as int, Class::Is('\r'));
        lemma_rows_for(line.len() as int, w);
        if line.len() > 0 {
            lemma_line_rows(line, 0, w, start, k + 1 == lines.len());
        }
        lemma_lines_rows(lines, k + 1, w, start + line.len() + 1);
    }
}

/// The number of rows that a content takes up is the number of its parts.
pub proof fn law_rows_are_chunks(content: Seq<char>, w: int)
    requires
        w > 0,
    ensures
        visual_lines(content, w) == chunks_of(content, w).len(),
        1 <= visual_lines(content, w) <= content.len() + 1,
{
    lemma_lines_rows(text::split(content, '\n'), 0, w, 0);
    law_chunks_inside(content, w);
    lemma_split_nonempty(content);
}

proof fn lemma_split_nonempty(content: Seq<char>)
    ensures
        text::split(content, '\n').len() > 0,
{
}

pub fn visual_lines_for_log(log: &LogItem, content_width: usize) -> (r: usize)
    requires
        visual_lines(log@.content, content_width as int) <= usize::MAX,
    ensures
        r == visual_lines(log@.content, content_width as int),
{
    if content_width == 0 {
        return 1;
    }
    let v = chars_of(log.content.as_str());
    let lines = pieces(v.as_slice(), '\n');
    let ghost views = text::views(lines@);
    let ghost w = content_width as int;
    let mut total: usize = 0;
    let mut k: usize = 0;
    while k < lines.len()
        invariant
            k <= lines@.len(),
            content_width > 0,
            w == content_width,
            views == text::views(lines@),
            total + lines_rows(views, k as int, w) == visual_lines(log@.content, w),
            visual_lines(log@.content, w) <= usize::MAX,
        decreases lines@.len() - k,
    {
        assert(views[k as int] == lines@[k as int]@);
        let line = skip_end(lines[k], Class::Is('\r'));
        let n: usize = line.len();
        proof {
            lemma_rows_for(n as int, w);
            lemma_lines_rows(views, k + 1, w, 0);
        }
        let rows: usize = if n == 0 {
            1
        } else if n % content_width == 0 {
            n / content_width
        } else {
            n / content_width + 1
        };
        total += rows;
        k += 1;
    }
    total
}

// ---------------------------------------------------------------------------
// What the parts are
// ---------------------------------------------------------------------------

proof fn lemma_line_tiles(line: Seq<char>, i: int, w: int, start: int, last: bool, j: int)
    requires
        0 <= i <= line.len(),
        w > 0,
        0 <= j,
    ensures
        j * w < line.len() - i ==> {
            let c = line_chunks(line, i, w, start, last);
            let from = i + j * w;
            let to = if from + w < line.len() {
                from + w
            } else {
                line.len() as int
            };
            &&& j < c.len()
            &&& c[j].text == line.subrange(from, to)
            &&& c[j].start == start + from
            &&& c[j].cont == !(last && to == line.len())
        },
        j * w >= line.len() - i ==> line_chunks(line, i, w, start, last).len() <= j,
    decreases j,
{
    let c = line_chunks(line, i, w, start, last);
    if i < line.len() {
        let e = if i + w < line.len() {
            i + w
        } else {
            line.len() as int
        };
        let rest = line_chunks(line, e, w, start, last);
        if j > 0 {
            lemma_line_tiles(line, e, w, start, last, j - 1);
            assert((j - 1) * w + w == j * w) by (nonlinear_arith);
            if i + w < line.len() {
                assert(c.len() == 1 + rest.len());
                if j * w < line.len() - i {
                    assert(c[j] == rest[j - 1]);
                }
            } else {
                assert(j * w >= w) by (nonlinear_arith)
                    requires
                        j >= 1,
                        w > 0,
                ;
                assert(rest.len() == 0);
            }
        } else {
            assert(j * w == 0) by (nonlinear_arith)
                requires
                    j == 0,
            ;
        }
    } else {
        assert(j * w >= 0) by (nonlinear_arith)
            requires
                j >= 0,
                w > 0,
        ;
    }
}

/// A content of one line is wrapped at every `w`-th character: the parts follow each
/// other without gap, each of them says that it goes on but the last, and no part is
/// left out.
pub proof fn law_wrapped_line(content: Seq<char>, w: int, j: int)
    requires
        w > 0,
        0 <= j,
        content.len() > 0,
        !content.contains('\n'),
        content.last() != '\r',
    ensures
        (j < chunks_of(content, w).len()) == (j * w < content.len()),
        j * w < content.len() ==> {
            let c = chunks_of(content, w)[j];
            let to = if j * w + w < content.len() {
                j * w + w
            } else {
                content.len() as int
            };
            &&& c.start == j * w
            &&& c.text == content.subrange(j * w, to)
            &&& c.cont == (to < content.len())
        },
{
    text::lemma_run_end(content, 0, Class::Not('\n'));
    let n = text::run_end(content, 0, Class::Not('\n'));
    if n < content.len() {
        assert(content.contains(content[n]));
    }
    let lines = text::split(content, '\n');
    assert(lines =~= seq![content]);
    assert(content.take(content.len() as int) =~= content);
    assert(clean(content) == content);
    reveal_with_fuel(lines_chunks, 2);
    let c = line_chunks(content, 0, w, 0, true);
    assert(chunks_of(content, w) =~= c);
    lemma_line_tiles(content, 0, w, 0, true, j);
}

/// A line break begins a new part: the parts of two lines are those of the first, all
/// of which go on, and those of the second.
pub proof fn law_break_begins_part(a: Seq<char>, b: Seq<char>, w: int)
    requires
        w > 0,
        !a.contains('\n'),
    ensures
        ({
            let line = clean(a);
            let c = chunks_of(a + seq!['\n'] + b, w);
            let first = whole_line(line, w, 0, false);
            &&& c.len() == first.len() + chunks_of(b, w).len()
            &&& forall|j: int| 0 <= j < first.len() ==> #[trigger] c[j] == first[j] && c[j].cont
            &&& forall|j: int|
                0 <= j < chunks_of(b, w).len() ==> {
                    let d = #[trigger] chunks_of(b, w)[j];
                    c[first.len() + j] == ChunkView { text: d.text, start: d.start + line.len() + 1, cont: d.cont }
                }
        }),
{
    let s = a + seq!['\n'] + b;
    text::lemma_run_end(s, 0, Class::Not('\n'));
    let n = text::run_end(s, 0, Class::Not('\n'));
    let m = a.len() as int;
    assert(s[m] == '\n');
    if n < m {
        assert(s[n] == a[n]);
        assert(a.contains(a[n]));
    }
    assert(n == m);
    assert(s.take(m) =~= a);
    assert(s.skip(m + 1) =~= b);
    let rest = text::split(b, '\n');
    let lines = text::split(s, '\n');
    assert(lines == seq![a] + rest);
    lemma_split_nonempty(b);
    let line = clean(a);
    let first = whole_line(line, w, 0, false);
    let c = chunks_of(s, w);
    assert(lines[0] == a);
    assert(c == first + lines_chunks(lines, 1, w, (line.len() + 1) as int));
    lemma_lines_behind(a, rest, 0, w, 0, (line.len() + 1) as int);
    assert forall|j: int| 0 <= j < first.len() implies #[trigger] c[j] == first[j] && c[j].cont by {
        if line.len() > 0 {
            lemma_goes_on(line, 0, w, 0, j);
        }
    }
}

proof fn lemma_goes_on(line: Seq<char>, i: int, w: int, start: int, j: int)
    requires
        w > 0,
        0 <= i,
        0 <= j < line_chunks(line, i, w, start, false).len(),
    ensures
        line_chunks(line, i, w, start, false)[j].cont,
    decreases line.len() - i,
{
    if i < line.len() && j > 0 {
        let e = if i + w < line.len() {
            i + w
        } else {
            line.len() as int
        };
        lemma_goes_on(line, e, w, start, j - 1);
        assert(line_chunks(line, i, w, start, false)[j] == line_chunks(line, e, w, start, false)[j - 1]);
    }
}

/// The place of a line moves its parts, and nothing else.
proof fn lemma_moved(line: Seq<char>, i: int, w: int, a: int, b: int, last: bool)
    ensures
        ({
            let x = line_chunks(line, i, w, a, last);
            let y = line_chunks(line, i, w, b, last);
            &&& x.len() == y.len()
            &&& forall|j: int|
                0 <= j < x.len() ==> #[trigger] y[j] == (ChunkView {
                    text: x[j].text,
                    start: x[j].start + b - a,
                    cont: x[j].cont,
                })
        }),
    decreases line.len() - i,
{
    if 0 <= i < line.len() && w > 0 {
        let e = if i + w < line.len() {
            i + w
        } else {
            line.len() as int
        };
        lemma_moved(line, e, w, a, b, last);
        let x = line_chunks(line, i, w, a, last);
        let y = line_chunks(line, i, w, b, last);
        let u = line_chunks(line, e, w, a, last);
        let v = line_chunks(line, e, w, b, last);
        assert forall|j: int| 0 <= j < x.len() implies #[trigger] y[j] == (ChunkView {
            text: x[j].text,
            start: x[j].start + b - a,
            cont: x[j].cont,
        }) by {
            if j > 0 {
                assert(x[j] == u[j - 1] && y[j] == v[j - 1]);
            }
        }
    }
}

proof fn lemma_lines_behind(head: Seq<char>, rest: Seq<Seq<char>>, k: int, w: int, a: int, b: int)
    requires
        0 <= k <= rest.len(),
    ensures
        ({
            let x = lines_chunks(rest, k, w, a);
            let y = lines_chunks(seq![head] + rest, k + 1, w, b);
            &&& x.len() == y.len()
            &&& forall|j: int|
                0 <= j < x.len() ==> #[trigger] y[j] == (ChunkView {
                    text: x[j].text,
                    start: x[j].start + b - a,
                    cont: x[j].cont,
                })
        }),
    decreases rest.len() - k,
{
    if k < rest.len() {
        let all = seq![head] + rest;
        assert(all[k + 1] == rest[k]);
        let line = clean(rest[k]);
        let last = k + 1 == rest.len();
        lemma_moved(line, 0, w, a, b, last);
        lemma_lines_behind(head, rest, k + 1, w, a + line.len() + 1, b + line.len() + 1);
        let p = whole_line(line, w, a, last);
        let q = whole_line(line, w, b, last);
        let x = lines_chunks(rest, k, w, a);
        let y = lines_chunks(all, k + 1, w, b);
        let u = lines_chunks(rest, k + 1, w, a + line.len() + 1);
        let v = lines_chunks(all, k + 2, w, b + line.len() + 1);
        assert(x == p + u && y == q + v);
        assert forall|j: int| 0 <= j < x.len() implies #[trigger] y[j] == (ChunkView {
            text: x[j].text,
            start: x[j].start + b - a,
            cont: x[j].cont,
        }) by {
            if j < p.len() {
                assert(x[j] == p[j] && y[j] == q[j]);
            } else {
                assert(x[j] == u[j - p.len()] && y[j] == v[j - p.len()]);
            }
        }
    }
}

} // verus!
