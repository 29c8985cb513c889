//! What terms are found in, what counts in front of lines mean, and how dates and
//! spans are counted.

use super::dedup;
use super::glob;
use super::matcher::{self, ExprView, MatcherView};
use super::time::{self, Stamp};
use crate::logitem::LogView;
use crate::numbers;
use crate::text::{self, Class};
use vstd::prelude::*;

verus! {

// ---------------------------------------------------------------------------
// Terms
// ---------------------------------------------------------------------------

/// A term is met by a line in whose text or in whose service's name it is found.
pub proof fn law_term_looks_at_text_and_service(m: MatcherView, log: LogView)
    ensures
        ExprView::Match(m).holds(log) <==> m.finds(log.content) || m.finds(log.service),
{
}

/// A term whose case counts is found where it stands as it is, with anything before and
/// behind it, and nowhere else.
pub proof fn law_literal_stands_as_it_is(a: Seq<char>, term: Seq<char>, b: Seq<char>, t: Seq<char>)
    ensures
        (MatcherView::Literal { text: term, case_sensitive: true }).finds(a + term + b),
        (MatcherView::Literal { text: term, case_sensitive: true }).finds(t) ==> exists|i: int|
            0 <= i && i + term.len() <= t.len() && t == #[trigger] t.take(i) + term + t.skip(i + term.len()),
{
    let all = a + term + b;
    let k = a.len() as int;
    assert(all.subrange(k, k + term.len()) =~= term);
    assert(text::stands_at(all, k, term));
    if text::contains(t, term) {
        let i = choose|i: int| text::stands_at(t, i, term);
        assert(t =~= t.take(i) + t.subrange(i, i + term.len()) + t.skip(i + term.len()));
    }
}

/// A term whose case does not count is found alike in texts that differ in case alone;
/// one without a double quote is found where its small letters stand.
pub proof fn law_case_does_not_count(x: Seq<char>, y: Seq<char>, t: Seq<char>, u: Seq<char>)
    requires
        text::lowercase(x) == text::lowercase(y),
        text::lowercase(t) == text::lowercase(u),
    ensures
        (MatcherView::Literal { text: x, case_sensitive: false }).finds(t) == (MatcherView::Literal {
            text: y,
            case_sensitive: false,
        }).finds(u),
        (MatcherView::Glob { pattern: x, case_sensitive: false }).finds(t) == (MatcherView::Glob {
            pattern: y,
            case_sensitive: false,
        }).finds(u),
        !text::lowercase(x).contains('"') ==> (MatcherView::Literal { text: x, case_sensitive: false }).finds(t)
            == text::contains(text::lowercase(t), text::lowercase(x)),
{
    let (h, n) = (text::lowercase(t), text::lowercase(x));
    if !n.contains('"') {
        assert forall|i: int| #[trigger] matcher::met_at(h, i, n) == text::stands_at(h, i, n) by {
            if matcher::met_at(h, i, n) {
                assert forall|j: int| 0 <= j < n.len() implies h.subrange(i, i + n.len())[j] == n[j] by {
                    assert(matcher::stands_for(n[j], h[i + j]));
                    assert(n.contains(n[j]));
                }
                assert(h.subrange(i, i + n.len()) =~= n);
            }
            if text::stands_at(h, i, n) {
                assert forall|j: int| 0 <= j < n.len() implies matcher::stands_for(#[trigger] n[j], h[i + j]) by {
                    assert(h.subrange(i, i + n.len())[j] == h[i + j]);
                }
            }
        }
        if matcher::met(h, n) {
            let i = choose|i: int| #[trigger] matcher::met_at(h, i, n);
            assert(text::stands_at(h, i, n));
        }
        if text::contains(h, n) {
            let i = choose|i: int| text::stands_at(h, i, n);
            assert(matcher::met_at(h, i, n));
        }
    }
}

/// A double quote in a term stands for an apostrophe too, an apostrophe for itself alone.
pub proof fn law_double_quote_is_apostrophe(a: Seq<char>, n: Seq<char>, b: Seq<char>, k: int, c: char)
    requires
        0 <= k < n.len(),
    ensures
        n[k] == '"' ==> matcher::met(a + n + b, n) && matcher::met(a + n.update(k, '\'') + b, n),
        matcher::met_at(n.update(k, c), 0, n) <==> c == n[k] || n[k] == '"' && c == '\'',
{
    let m = n.update(k, '\'');
    let s = a + n + b;
    let t = a + m + b;
    let i = a.len() as int;
    if n[k] == '"' {
        assert forall|j: int| 0 <= j < n.len() implies matcher::stands_for(#[trigger] n[j], s[i + j])
            && matcher::stands_for(n[j], t[i + j]) by {
            assert(s[i + j] == n[j]);
            assert(t[i + j] == m[j]);
        }
        assert(matcher::met_at(s, i, n));
        assert(matcher::met_at(t, i, n));
    }
    let w = n.update(k, c);
    if matcher::met_at(w, 0, n) {
        assert(matcher::stands_for(n[k], w[0 + k]));
    }
    if c == n[k] || n[k] == '"' && c == '\'' {
        assert forall|j: int| 0 <= j < n.len() implies matcher::stands_for(#[trigger] n[j], w[0 + j]) by {
            assert(j != k ==> w[j] == n[j]);
        }
    }
}

// ---------------------------------------------------------------------------
// Patterns
// ---------------------------------------------------------------------------

/// Whether a pattern matches all of a text.
pub open spec fn matches_all(p: Seq<char>, t: Seq<char>) -> bool {
    glob::glob_at(p, t, 0, 0)
}

proof fn lemma_pattern_shifts(c: char, p: Seq<char>, t: Seq<char>, d: int, i: int, j: int)
    requires
        0 <= i <= p.len(),
        0 <= d,
        0 <= j,
        d + j <= t.len(),
    ensures
        glob::glob_at(seq![c] + p, t, i + 1, d + j) == glob::glob_at(p, t.skip(d), i, j),
    decreases p.len() - i, t.len() - d - j,
{
    let q = seq![c] + p;
    let u = t.skip(d);
    if i < p.len() {
        assert(q[i + 1] == p[i]);
        if p[i] == '*' {
            lemma_pattern_shifts(c, p, t, d, i + 1, j);
            if j < u.len() {
                lemma_pattern_shifts(c, p, t, d, i, j + 1);
            }
        } else if j < u.len() {
            assert(t[d + j] == u[j]);
            lemma_pattern_shifts(c, p, t, d, i + 1, j + 1);
        }
    }
}

proof fn lemma_star_at(p: Seq<char>, t: Seq<char>, j: int)
    requires
        0 <= j <= t.len(),
    ensures
        glob::glob_at(seq!['*'] + p, t, 0, j) <==> exists|k: int|
            j <= k <= t.len() && #[trigger] glob::glob_at(seq!['*'] + p, t, 1, k),
    decreases t.len() - j,
{
    let q = seq!['*'] + p;
    assert(q[0] == '*' && q.len() == p.len() + 1);
    if j < t.len() {
        lemma_star_at(p, t, j + 1);
    }
    if glob::glob_at(q, t, 0, j) && !glob::glob_at(q, t, 1, j) {
        assert(j < t.len() && glob::glob_at(q, t, 0, j + 1));
        let k = choose|k: int| j + 1 <= k <= t.len() && #[trigger] glob::glob_at(q, t, 1, k);
        assert(glob::glob_at(q, t, 1, k));
    }
    if exists|k: int| j <= k <= t.len() && #[trigger] glob::glob_at(q, t, 1, k) {
        let k = choose|k: int| j <= k <= t.len() && #[trigger] glob::glob_at(q, t, 1, k);
        if k > j {
            assert(glob::glob_at(q, t, 1, k));
        }
    }
}

/// An empty pattern matches the empty text alone; a question mark stands for any one
/// character, a star for any number of them, and any other character for itself.
pub proof fn law_wildcards(c: char, p: Seq<char>, t: Seq<char>)
    ensures
        matches_all(seq![], t) <==> t.len() == 0,
        matches_all(seq!['?'] + p, t) <==> t.len() > 0 && matches_all(p, t.skip(1)),
        matches_all(seq!['*'] + p, t) <==> exists|k: int| 0 <= k <= t.len() && matches_all(p, #[trigger] t.skip(k)),
        c != '*' && c != '?' ==> (matches_all(seq![c] + p, t) <==> t.len() > 0 && t[0] == c && matches_all(
            p,
            t.skip(1),
        )),
{
    if t.len() > 0 {
        lemma_pattern_shifts('?', p, t, 1, 0, 0);
        lemma_pattern_shifts(c, p, t, 1, 0, 0);
    }
    lemma_star_at(p, t, 0);
    let q = seq!['*'] + p;
    assert forall|k: int| 0 <= k <= t.len() implies glob::glob_at(q, t, 1, k) == matches_all(p, #[trigger] t.skip(k)) by {
        lemma_pattern_shifts('*', p, t, k, 0, 0);
    }
    if matches_all(q, t) {
        let k = choose|k: int| 0 <= k <= t.len() && #[trigger] glob::glob_at(q, t, 1, k);
        assert(matches_all(p, t.skip(k)));
    }
    if exists|k: int| 0 <= k <= t.len() && matches_all(p, #[trigger] t.skip(k)) {
        let k = choose|k: int| 0 <= k <= t.len() && matches_all(p, #[trigger] t.skip(k));
        assert(glob::glob_at(q, t, 1, k));
    }
}

proof fn lemma_last_star(p: Seq<char>, u: Seq<char>, j: int)
    requires
        0 <= j <= u.len(),
    ensures
        glob::glob_at(p.push('*'), u, p.len() as int, j),
    decreases u.len() - j,
{
    let q = p.push('*');
    assert(q[p.len() as int] == '*');
    if j < u.len() {
        lemma_last_star(p, u, j + 1);
    } else {
        assert(glob::glob_at(q, u, p.len() as int + 1, j));
    }
}

/// What a pattern with a star behind it matches begins with what the pattern matches.
proof fn lemma_starred(p: Seq<char>, u: Seq<char>, i: int, j: int) -> (m: int)
    requires
        0 <= i <= p.len(),
        0 <= j <= u.len(),
        glob::glob_at(p.push('*'), u, i, j),
    ensures
        j <= m <= u.len(),
        glob::glob_at(p, u.take(m), i, j),
    decreases p.len() - i, u.len() - j,
{
    let q = p.push('*');
    if i == p.len() {
        j
    } else {
        assert(q[i] == p[i]);
        if p[i] == '*' {
            if glob::glob_at(q, u, i + 1, j) {
                lemma_starred(p, u, i + 1, j)
            } else {
                lemma_starred(p, u, i, j + 1)
            }
        } else {
            let m = lemma_starred(p, u, i + 1, j + 1);
            assert(u.take(m)[j] == u[j]);
            m
        }
    }
}

proof fn lemma_starred_back(p: Seq<char>, u: Seq<char>, i: int, j: int, m: int)
    requires
        0 <= i <= p.len(),
        0 <= j <= m <= u.len(),
        glob::glob_at(p, u.take(m), i, j),
    ensures
        glob::glob_at(p.push('*'), u, i, j),
    decreases p.len() - i, m - j,
{
    let q = p.push('*');
    if i == p.len() {
        lemma_last_star(p, u, j);
    } else {
        assert(q[i] == p[i]);
        if p[i] == '*' {
            if glob::glob_at(p, u.take(m), i + 1, j) {
                lemma_starred_back(p, u, i + 1, j, m);
            } else {
                lemma_starred_back(p, u, i, j + 1, m);
            }
        } else {
            assert(u.take(m)[j] == u[j]);
            lemma_starred_back(p, u, i + 1, j + 1, m);
        }
    }
}

/// A pattern is found in a text if it matches a stretch of it, and only then.
pub proof fn law_pattern_matches_a_stretch(pattern: Seq<char>, t: Seq<char>)
    requires
        !t.contains('*'),
        pattern.len() > 0,
        pattern[0] != '*',
        pattern.last() != '*',
    ensures
        glob::glob_finds(pattern, t) <==> exists|a: int, b: int|
            0 <= a <= b <= t.len() && matches_all(pattern, #[trigger] t.subrange(a, b)),
{
    assert(text::trim(pattern, Class::Is('*')) == pattern) by {
        assert(text::run_end(pattern, 0, Class::Is('*')) == 0);
        assert(pattern.skip(0) =~= pattern);
        assert(text::run_start(pattern, pattern.len() as int, Class::Is('*')) == pattern.len());
        assert(pattern.take(pattern.len() as int) =~= pattern);
    }
    let starred = pattern.push('*');
    let all = seq!['*'] + starred;
    assert(glob::anywhere(pattern) =~= all);
    glob::law_search_is_meaning(all, t);
    law_wildcards('*', starred, t);
    if glob::glob_finds(pattern, t) {
        let k = choose|k: int| 0 <= k <= t.len() && matches_all(starred, #[trigger] t.skip(k));
        let m = lemma_starred(pattern, t.skip(k), 0, 0);
        assert(t.subrange(k, k + m) =~= t.skip(k).take(m));
    }
    if exists|a: int, b: int| 0 <= a <= b <= t.len() && matches_all(pattern, #[trigger] t.subrange(a, b)) {
        let (a, b) = choose|a: int, b: int|
            0 <= a <= b <= t.len() && matches_all(pattern, #[trigger] t.subrange(a, b));
        assert(t.subrange(a, b) =~= t.skip(a).take(b - a));
        lemma_starred_back(pattern, t.skip(a), 0, 0, b - a);
        assert(matches_all(starred, t.skip(a)));
    }
}

// ---------------------------------------------------------------------------
// Counts in front of lines
// ---------------------------------------------------------------------------

proof fn lemma_trim_nothing(s: Seq<char>)
    requires
        s.len() > 0,
        !text::whitespace(s[0]),
    ensures
        text::trim_start(s, Class::Space) == s,
{
    assert(text::run_end(s, 0, Class::Space) == 0);
    assert(s.skip(0) =~= s);
}

proof fn lemma_times(n: nat)
    requires
        n <= usize::MAX,
    ensures
        dedup::times(numbers::decimal(n).push('x')) == Some(n as int),
        numbers::decimal(n).len() > 0,
        forall|i: int| 0 <= i < numbers::decimal(n).len() ==> '0' <= #[trigger] numbers::decimal(n)[i] <= '9',
{
    let d = numbers::decimal(n);
    numbers::lemma_decimal(n);
    numbers::law_decimal_reads_back(n, usize::MAX as int);
    assert(d.push('x').drop_last() =~= d);
}

/// A line that begins with a count in brackets stands for so many lines with the text
/// behind it, unless a dash comes into play.
pub proof fn law_bracketed_count(n: nat, msg: Seq<char>)
    requires
        n <= usize::MAX,
        msg.len() > 0,
        !text::whitespace(msg[0]),
    ensures
        ({
            let line = seq!['['] + numbers::decimal(n).push('x') + seq![']', ' '] + msg;
            text::find(line, " — "@) is None && text::find(line, " - "@) is None ==> dedup::count_and_message(line)
                == (n as int, msg)
        }),
{
    let d = numbers::decimal(n);
    let inner = d.push('x');
    let line = seq!['['] + inner + seq![']', ' '] + msg;
    lemma_times(n);
    lemma_trim_nothing(line);
    let close = inner.len() as int + 1;
    assert forall|j: int| 0 <= j < close implies Class::Not(']').has(#[trigger] line[j]) by {
        if j > 0 {
            assert(line[j] == inner[j - 1]);
            if j - 1 < d.len() {
                assert(inner[j - 1] == d[j - 1]);
            }
        }
    }
    assert(line[close] == ']');
    lemma_run(line, 0, close, Class::Not(']'));
    assert(line.subrange(1, close) =~= inner);
    let rest = line.skip(close + 1);
    assert(rest =~= seq![' '] + msg);
    assert(rest[0] == ' ' && rest[1] == msg[0]);
    assert(text::run_end(rest, 1, Class::Space) == 1);
    assert(text::run_end(rest, 0, Class::Space) == 1);
    assert(rest.skip(1) =~= msg);
}

proof fn lemma_run(s: Seq<char>, i: int, e: int, k: Class)
    requires
        0 <= i <= e < s.len(),
        forall|j: int| i <= j < e ==> k.has(#[trigger] s[j]),
        !k.has(s[e]),
    ensures
        text::run_end(s, i, k) == e,
    decreases e - i,
{
    if i < e {
        assert(k.has(s[i]));
        lemma_run(s, i + 1, e, k);
    }
}

proof fn lemma_first_found(h: Seq<char>, i: int, k: int, n: Seq<char>)
    requires
        0 <= i <= k <= h.len(),
        text::stands_at(h, k, n),
        forall|j: int| i <= j < k ==> !#[trigger] text::stands_at(h, j, n),
    ensures
        text::find_from(h, i, n) == Some(k),
    decreases k - i,
{
    if i < k {
        assert(!text::stands_at(h, i, n));
        lemma_first_found(h, i + 1, k, n);
    }
}

/// A line that begins with a count and a dash stands for so many lines with the text
/// behind the dash.
pub proof fn law_dashed_count(n: nat, msg: Seq<char>)
    requires
        n <= usize::MAX,
        msg.len() > 0,
        !text::whitespace(msg[0]),
    ensures
        ({
            let line = numbers::decimal(n).push('x') + " - "@ + msg;
            text::find(line, " — "@) is None ==> dedup::count_and_message(line) == (n as int, msg)
        }),
{
    reveal_strlit(" - ");
    let d = numbers::decimal(n);
    let front = d.push('x');
    let line = front + " - "@ + msg;
    lemma_times(n);
    assert(line[0] == front[0]);
    assert(d[0] == front[0]);
    lemma_trim_nothing(line);
    let k = front.len() as int;
    assert(line.subrange(k, k + 3) =~= " - "@);
    assert(text::stands_at(line, k, " - "@));
    assert forall|j: int| 0 <= j < k implies !#[trigger] text::stands_at(line, j, " - "@) by {
        if text::stands_at(line, j, " - "@) {
            assert(line.subrange(j, j + 3)[0] == ' ');
            assert(line[j] == front[j]);
            if j < d.len() {
                assert(front[j] == d[j]);
            }
        }
    }
    lemma_first_found(line, 0, k, " - "@);
    assert(line.take(k) =~= front);
    assert(text::trimmed(front) == front) by {
        lemma_trim_nothing(front);
        assert(front.last() == 'x');
        assert(text::run_start(front, front.len() as int, Class::Space) == front.len());
        assert(front.take(front.len() as int) =~= front);
    }
    assert(line.skip(k + 3) =~= msg);
    lemma_trim_nothing(msg);
}

/// A line that begins with neither a digit nor a plus sign nor a bracket stands for
/// itself.
pub proof fn law_plain_line_counts_once(line: Seq<char>)
    requires
        line.len() > 0,
        !text::whitespace(line[0]),
        !('0' <= line[0] <= '9'),
        line[0] != '+',
        line[0] != '[',
    ensures
        dedup::count_and_message(line) == (1int, line),
{
    lemma_trim_nothing(line);
    if let Some(d) = text::find(line, " - "@) {
        text::lemma_find(line, 0, " - "@);
        let p = line.take(d);
        let q = text::trimmed(p);
        if p.len() > 0 {
            assert(p[0] == line[0]);
            lemma_trim_nothing(p);
            text::lemma_run_start(p, p.len() as int, Class::Space);
            if q.len() > 0 {
                assert(q[0] == line[0]);
                let e = q.drop_last();
                if e.len() > 0 {
                    assert(e[0] == line[0]);
                    assert(numbers::digit_value(e[0]) >= 10);
                }
            }
        } else {
            assert(p =~= Seq::<char>::empty());
            assert(text::run_end(p, 0, Class::Space) == 0);
            assert(q.len() == 0);
        }
    }
}

// ---------------------------------------------------------------------------
// Dates and spans
// ---------------------------------------------------------------------------

/// Whether a year has a 29th of February.
pub open spec fn leaps(year: int) -> bool {
    year % 4 == 0 && (year % 100 != 0 || year % 400 == 0)
}

/// How many days a month has.
pub open spec fn month_length(year: int, month: int) -> int {
    if month == 2 {
        if leaps(year) {
            29
        } else {
            28
        }
    } else if month == 4 || month == 6 || month == 9 || month == 11 {
        30
    } else {
        31
    }
}

/// Each month begins as many days behind the one before as that one has, and the count
/// begins with the year 1970.
pub proof fn law_months_follow_each_other(a: Stamp, b: Stamp)
    requires
        1 <= a.year < 1_000_000,
        1 <= a.month <= 12,
        a.month < 12 ==> b.year == a.year && b.month == a.month + 1,
        a.month == 12 ==> b.year == a.year + 1 && b.month == 1,
        a.day == 1,
        b.day == 1,
    ensures
        b.days() - a.days() == month_length(a.year as int, a.month as int),
        a.year == 1970 && a.month == 1 ==> a.days() == 0,
{
    let y = a.year as int;
    if a.month == 2 {
        lemma_year_turns(y);
        assert(a.march_month() == 11 && b.march_month() == 0);
        assert(a.march_year() == y - 1 && b.march_year() == y);
    }
}

/// From March to March.
proof fn lemma_year_turns(y: int)
    requires
        1 <= y < 1_000_000,
    ensures
        ({
            let days = |m: int|
                {
                    let e = time::quot(m, 400);
                    let r = m - e * 400;
                    e * 146097 + r * 365 + time::quot(r, 4) - time::quot(r, 100)
                };
            days(y) - days(y - 1) == (if leaps(y) {
                366int
            } else {
                365int
            })
        }),
{
    let e = y / 400;
    let r = y % 400;
    let f = (y - 1) / 400;
    let s = (y - 1) % 400;
    assert(y == e * 400 + r && y - 1 == f * 400 + s);
    if r == 0 {
        assert(f == e - 1 && s == 399);
    } else {
        assert(f == e && s == r - 1);
        assert(y % 4 == r % 4 && y % 100 == r % 100);
    }
}

/// Later days, hours, minutes and seconds count as so many seconds more.
pub proof fn law_seconds_add_up(a: Stamp, b: Stamp)
    requires
        a.year == b.year,
        a.month == b.month,
    ensures
        b.seconds() - a.seconds() == (b.day - a.day) * 86400 + (b.hour - a.hour) * 3600 + (b.min - a.min) * 60 + (
        b.sec - a.sec),
{
    assert(b.days() - a.days() == b.day - a.day);
}

/// A span holds its milliseconds.
pub proof fn law_span_holds_millis(ms: int)
    requires
        0 <= ms,
        ms / 1000 <= u64::MAX,
    ensures
        time::span(ms).secs * 1000 + (time::span(ms).nanos as int) / 1_000_000 == ms,
        time::span(ms).nanos < 1_000_000_000,
{
}

} // verus!
