//! What the stages with a keyword say.

use super::dedup::DedupMode;
use super::fault::Fault;
use super::laws;
use super::matcher;
use super::pipeline::ModifierView;
use super::stages;
use super::time::{self, Duration};
use crate::numbers;
use crate::text::{self, Class};
use vstd::prelude::*;

verus! {

/// A word that a stage can begin with.
pub open spec fn is_word(k: Seq<char>) -> bool {
    &&& k.len() > 0
    &&& !matcher::quote(k[0])
    &&& forall|i: int| 0 <= i < k.len() ==> !text::whitespace(#[trigger] k[i])
}

/// Arguments: no blank stands at either end of them.
pub open spec fn is_argument(a: Seq<char>) -> bool {
    a.len() > 0 && !text::whitespace(a[0]) && !text::whitespace(a.last())
}

/// A stage of a word, a blank and arguments.
pub open spec fn stage(k: Seq<char>, b: char, a: Seq<char>) -> Seq<char> {
    k + seq![b] + a
}

proof fn lemma_run(s: Seq<char>, i: int, e: int, k: Class)
    requires
        0 <= i <= e <= s.len(),
        forall|j: int| i <= j < e ==> k.has(#[trigger] s[j]),
        e == s.len() || !k.has(s[e]),
    ensures
        text::run_end(s, i, k) == e,
    decreases e - i,
{
    if i < e {
        assert(k.has(s[i]));
        lemma_run(s, i + 1, e, k);
    }
}

pub proof fn lemma_parts(k: Seq<char>, b: char, a: Seq<char>)
    requires
        is_word(k),
        text::whitespace(b),
        is_argument(a),
    ensures
        stages::stage_parts(stage(k, b, a)) == (text::lowercase(k), a),
{
    let s = stage(k, b, a);
    let n = k.len() as int;
    assert forall|j: int| 0 <= j < n implies Class::NotSpace.has(#[trigger] s[j]) by {
        assert(s[j] == k[j]);
    }
    assert(s[n] == b);
    lemma_run(s, 0, n, Class::NotSpace);
    assert(s[0] == k[0]);
    assert(s.take(n) =~= k);
    assert(s.skip(n + 1) =~= a);
    assert(a.skip(0) =~= a);
    assert(a.take(a.len() as int) =~= a);
}

/// The keywords begin with different letters, but for the two that mean the same.
pub proof fn lemma_keywords()
    ensures
        "since"@.len() > 0 && "since"@[0] == 's',
        "before"@.len() > 0 && "before"@[0] == 'b',
        "after"@.len() > 0 && "after"@[0] == 'a',
        "context"@.len() > 0 && "context"@[0] == 'c',
        "first"@.len() > 0 && "first"@[0] == 'f',
        "last"@.len() > 0 && "last"@[0] == 'l',
        "dedup"@.len() > 0 && "dedup"@[0] == 'd',
        "deduplicate"@.len() > 0 && "deduplicate"@[0] == 'd',
{
    reveal_strlit("since");
    reveal_strlit("before");
    reveal_strlit("after");
    reveal_strlit("context");
    reveal_strlit("first");
    reveal_strlit("last");
    reveal_strlit("dedup");
    reveal_strlit("deduplicate");
}

proof fn lemma_decimal_argument(n: nat)
    ensures
        is_argument(numbers::decimal(n)),
        forall|i: int| 0 <= i < numbers::decimal(n).len() ==> !text::whitespace(#[trigger] numbers::decimal(n)[i]),
{
    numbers::lemma_decimal(n);
    let d = numbers::decimal(n);
    assert('0' <= d[0] <= '9');
    assert('0' <= d[d.len() - 1] <= '9');
}

/// Two arguments with a blank between them are the words that they are.
proof fn lemma_words(a: Seq<char>, b: char, c: Seq<char>)
    requires
        a.len() > 0,
        c.len() > 0,
        text::whitespace(b),
        forall|i: int| 0 <= i < a.len() ==> !text::whitespace(#[trigger] a[i]),
        forall|i: int| 0 <= i < c.len() ==> !text::whitespace(#[trigger] c[i]),
    ensures
        text::words(a) == seq![a],
        text::words(a + seq![b] + c) == seq![a, c],
{
    let s = a + seq![b] + c;
    let n = a.len() as int;
    let m = s.len() as int;
    lemma_word(a, 0, n);
    assert(a.subrange(0, n) =~= a);
    assert forall|i: int| 0 <= i < n implies !text::whitespace(#[trigger] s[i]) by {
        assert(s[i] == a[i]);
    }
    assert(s[n] == b);
    lemma_word(s, 0, n);
    assert(s.subrange(0, n) =~= a);
    assert forall|i: int| n + 1 <= i < m implies !text::whitespace(#[trigger] s[i]) by {
        assert(s[i] == c[i - n - 1]);
    }
    lemma_word(s, n + 1, m);
    assert(s.subrange(n + 1, m) =~= c);
    reveal_with_fuel(text::words_from, 4);
    assert(text::words(a) =~= seq![a]);
    assert(text::words(s) =~= seq![a, c]);
}

proof fn lemma_word(s: Seq<char>, i: int, e: int)
    requires
        0 <= i <= e <= s.len(),
        forall|j: int| i <= j < e ==> !text::whitespace(#[trigger] s[j]),
        e == s.len() || text::whitespace(s[e]),
    ensures
        text::word_end(s, i) == e,
    decreases e - i,
{
    if i < e {
        assert(!text::whitespace(s[i]));
        lemma_word(s, i + 1, e);
    }
}

/// The word of a stage, in any letter case, and the number behind it say what step it
/// is: the first or the last so many lines, or so many lines around each.
pub proof fn law_number_stages(k: Seq<char>, b: char, n: usize)
    requires
        is_word(k),
        text::whitespace(b),
    ensures
        ({
            let s = stage(k, b, numbers::decimal(n as nat));
            let w = text::lowercase(k);
            &&& w == "first"@ ==> stages::modifier_of(s) == Ok::<Option<ModifierView>, Fault>(
                Some(ModifierView::First(n)),
            )
            &&& w == "last"@ ==> stages::modifier_of(s) == Ok::<Option<ModifierView>, Fault>(
                Some(ModifierView::Last(n)),
            )
            &&& w == "after"@ ==> stages::modifier_of(s) == Ok::<Option<ModifierView>, Fault>(
                Some(ModifierView::AfterContext(n)),
            )
            &&& w == "before"@ && time::duration_of(numbers::decimal(n as nat)) is None ==> stages::modifier_of(s)
                == Ok::<Option<ModifierView>, Fault>(Some(ModifierView::BeforeContext(n)))
            &&& w == "context"@ ==> stages::modifier_of(s) == Ok::<Option<ModifierView>, Fault>(
                Some(ModifierView::Context { before: n, after: n }),
            )
        }),
{
    let d = numbers::decimal(n as nat);
    lemma_decimal_argument(n as nat);
    lemma_parts(k, b, d);
    lemma_keywords();
    numbers::law_decimal_reads_back(n as nat, usize::MAX as int);
    lemma_words(d, b, d);
}

/// Two numbers behind `context` are how many lines before and how many behind.
pub proof fn law_context_stage(k: Seq<char>, b: char, before: usize, after: usize)
    requires
        is_word(k),
        text::whitespace(b),
        text::lowercase(k) == "context"@,
    ensures
        stages::modifier_of(
            stage(k, b, numbers::decimal(before as nat) + seq![b] + numbers::decimal(after as nat)),
        ) == Ok::<Option<ModifierView>, Fault>(Some(ModifierView::Context { before, after })),
{
    let (x, y) = (numbers::decimal(before as nat), numbers::decimal(after as nat));
    let a = x + seq![b] + y;
    lemma_decimal_argument(before as nat);
    lemma_decimal_argument(after as nat);
    assert(a[0] == x[0] && a.last() == y.last());
    lemma_parts(k, b, a);
    lemma_keywords();
    numbers::law_decimal_reads_back(before as nat, usize::MAX as int);
    numbers::law_decimal_reads_back(after as nat, usize::MAX as int);
    lemma_words(x, b, y);
}

/// A span of time behind a word says since when, up to when, or within which window.
pub proof fn law_time_stages(k: Seq<char>, b: char, a: Seq<char>, d: Duration)
    requires
        is_word(k),
        text::whitespace(b),
        is_argument(a),
        time::duration_of(a) == Some(d),
        !text::same_ignoring_case(a, "all"@),
    ensures
        ({
            let s = stage(k, b, a);
            let w = text::lowercase(k);
            &&& w == "since"@ ==> stages::modifier_of(s) == Ok::<Option<ModifierView>, Fault>(
                Some(ModifierView::Since(d)),
            )
            &&& w == "before"@ ==> stages::modifier_of(s) == Ok::<Option<ModifierView>, Fault>(
                Some(ModifierView::BeforeTime(d)),
            )
            &&& w == "dedup"@ || w == "deduplicate"@ ==> stages::modifier_of(s) == Ok::<Option<ModifierView>, Fault>(
                Some(ModifierView::Deduplicate(DedupMode::Window(d))),
            )
        }),
{
    lemma_parts(k, b, a);
    lemma_keywords();
}

/// `dedup` alone folds neighbours, with `all` behind it all repetitions.
pub proof fn law_dedup_stages(k: Seq<char>, b: char, a: Seq<char>)
    requires
        is_word(k),
        text::whitespace(b),
        is_argument(a),
        text::same_ignoring_case(a, "all"@),
        text::lowercase(k) == "dedup"@ || text::lowercase(k) == "deduplicate"@,
    ensures
        stages::modifier_of(k) == Ok::<Option<ModifierView>, Fault>(
            Some(ModifierView::Deduplicate(DedupMode::Consecutive)),
        ),
        stages::modifier_of(stage(k, b, a)) == Ok::<Option<ModifierView>, Fault>(
            Some(ModifierView::Deduplicate(DedupMode::All)),
        ),
{
    lemma_parts(k, b, a);
    lemma_keywords();
    assert forall|j: int| 0 <= j < k.len() implies Class::NotSpace.has(#[trigger] k[j]) by {
    }
    lemma_run(k, 0, k.len() as int, Class::NotSpace);
    assert(stages::stage_parts(k) == (text::lowercase(k), Seq::<char>::empty()));
}

// ---------------------------------------------------------------------------
// Spans of time
// ---------------------------------------------------------------------------

proof fn lemma_all_kept(s: Seq<char>, p: spec_fn(char) -> bool)
    requires
        forall|i: int| 0 <= i < s.len() ==> p(#[trigger] s[i]),
    ensures
        s.filter(p) == s,
    decreases s.len(),
{
    reveal(Seq::filter);
    if s.len() > 0 {
        let f = s.drop_last();
        assert forall|i: int| 0 <= i < f.len() implies p(#[trigger] f[i]) by {
            assert(f[i] == s[i]);
        }
        lemma_all_kept(f, p);
        assert(p(s[s.len() - 1]));
        assert(f.push(s.last()) =~= s);
    }
}

proof fn lemma_none_kept(s: Seq<char>, p: spec_fn(char) -> bool)
    requires
        forall|i: int| 0 <= i < s.len() ==> !p(#[trigger] s[i]),
    ensures
        s.filter(p) == Seq::<char>::empty(),
    decreases s.len(),
{
    reveal(Seq::filter);
    if s.len() > 0 {
        let f = s.drop_last();
        assert forall|i: int| 0 <= i < f.len() implies !p(#[trigger] f[i]) by {
            assert(f[i] == s[i]);
        }
        lemma_none_kept(f, p);
        assert(!p(s[s.len() - 1]));
    }
}

proof fn lemma_digits_and_others(d: Seq<char>, u: Seq<char>)
    requires
        forall|i: int| 0 <= i < d.len() ==> '0' <= #[trigger] d[i] <= '9',
        forall|i: int| 0 <= i < u.len() ==> !('0' <= #[trigger] u[i] <= '9'),
    ensures
        time::digits_in(d + u) == d,
        time::others_in(d + u) == u,
{
    let digit = |c: char| Class::Digit.has(c);
    let other = |c: char| !Class::Digit.has(c);
    Seq::filter_distributes_over_add(d, u, digit);
    Seq::filter_distributes_over_add(d, u, other);
    lemma_all_kept(d, digit);
    lemma_none_kept(u, digit);
    lemma_none_kept(d, other);
    lemma_all_kept(u, other);
    assert(d + Seq::<char>::empty() =~= d);
    assert(Seq::<char>::empty() + u =~= u);
}

proof fn lemma_digit_is_no_blank(c: char)
    requires
        '0' <= c <= '9',
    ensures
        !text::whitespace(c),
{
}

proof fn lemma_joined_trimmed(d: Seq<char>, u: Seq<char>)
    requires
        is_argument(u),
        d.len() > 0,
        !text::whitespace(d[0]),
    ensures
        text::trimmed(d + u) == d + u,
        text::trimmed(u) == u,
{
    let s = d + u;
    assert(s[0] == d[0] && s.last() == u.last());
    laws::lemma_trimmed(s);
    laws::lemma_trimmed(u);
}

proof fn lemma_number(n: u64) -> (d: Seq<char>)
    ensures
        d == numbers::decimal(n as nat),
        d.len() > 0,
        !text::whitespace(d[0]),
        forall|i: int| 0 <= i < d.len() ==> '0' <= #[trigger] d[i] <= '9',
{
    numbers::lemma_decimal(n as nat);
    let d = numbers::decimal(n as nat);
    assert('0' <= d[0] <= '9');
    lemma_digit_is_no_blank(d[0]);
    d
}

proof fn lemma_number_and_unit(n: u64, u: Seq<char>)
    requires
        is_argument(u),
        forall|i: int| 0 <= i < u.len() ==> !('0' <= #[trigger] u[i] <= '9'),
    ensures
        text::trimmed(numbers::decimal(n as nat) + u) == numbers::decimal(n as nat) + u,
        time::digits_in(numbers::decimal(n as nat) + u) == numbers::decimal(n as nat),
        text::trimmed(time::others_in(numbers::decimal(n as nat) + u)) == u,
{
    let d = lemma_number(n);
    lemma_joined_trimmed(d, u);
    lemma_digits_and_others(d, u);
}

/// The span that a number and a unit stand for is that number of times the unit.
#[verifier::rlimit(30)]
pub proof fn law_span_is_multiple(n: u64, u: Seq<char>)
    requires
        is_argument(u),
        forall|i: int| 0 <= i < u.len() ==> !('0' <= #[trigger] u[i] <= '9'),
    ensures
        time::unit_millis(text::lowercase(u)) matches Some(ms) ==> time::duration_millis(
            numbers::decimal(n as nat) + u,
        ) == Some(n * ms),
        time::unit_millis(text::lowercase(u)) is None ==> time::duration_millis(numbers::decimal(n as nat) + u)
            is None,
{
    let t = numbers::decimal(n as nat) + u;
    assert(numbers::read_unsigned(numbers::decimal(n as nat), 10, u64::MAX as int) == Some(n as int)) by {
        numbers::law_decimal_reads_back(n as nat, u64::MAX as int);
    }
    lemma_number_and_unit(n, u);
    assert(time::duration_millis(t) == match (
        numbers::read_unsigned(numbers::decimal(n as nat), 10, u64::MAX as int),
        time::unit_millis(text::lowercase(u)),
    ) {
        (Some(v), Some(ms)) => Some(v * ms),
        _ => None,
    });
}

/// Each unit is a multiple of the one below it, however it is written.
pub proof fn law_units(w: Seq<char>)
    ensures
        ({
            let second = 1000int;
            let minute = 60 * second;
            let hour = 60 * minute;
            let day = 24 * hour;
            &&& w == "ms"@ ==> time::unit_millis(w) == Some(1int)
            &&& (w == "s"@ || w == "sec"@ || w == "secs"@ || w == "second"@ || w == "seconds"@)
                ==> time::unit_millis(w) == Some(second)
            &&& (w == "m"@ || w == "min"@ || w == "mins"@ || w == "minute"@ || w == "minutes"@)
                ==> time::unit_millis(w) == Some(minute)
            &&& (w == "h"@ || w == "hr"@ || w == "hrs"@ || w == "hour"@ || w == "hours"@) ==> time::unit_millis(w)
                == Some(hour)
            &&& (w == "d"@ || w == "day"@ || w == "days"@) ==> time::unit_millis(w) == Some(day)
        }),
{
    lemma_units();
}

/// The names of units are told apart by their length and their letters.
proof fn lemma_units()
    ensures
        ({
            let w = "ms"@;
            w.len() == 2 && w[0] == 'm' && w[1] == 's'
        }),
        "s"@.len() == 1 && "s"@[0] == 's' && "sec"@[0] == 's' && "secs"@[0] == 's',
        "second"@[0] == 's' && "seconds"@[0] == 's',
        "m"@.len() == 1 && "m"@[0] == 'm' && "min"@.len() == 3 && "min"@[0] == 'm' && "mins"@.len() == 4,
        "mins"@[0] == 'm' && "minute"@.len() == 6 && "minute"@[0] == 'm' && "minutes"@.len() == 7,
        "minutes"@[0] == 'm',
        "h"@[0] == 'h' && "hr"@[0] == 'h' && "hrs"@[0] == 'h' && "hour"@[0] == 'h' && "hours"@[0] == 'h',
        "d"@[0] == 'd' && "day"@[0] == 'd' && "days"@[0] == 'd',
{
    reveal_strlit("ms");
    reveal_strlit("s");
    reveal_strlit("sec");
    reveal_strlit("secs");
    reveal_strlit("second");
    reveal_strlit("seconds");
    reveal_strlit("m");
    reveal_strlit("min");
    reveal_strlit("mins");
    reveal_strlit("minute");
    reveal_strlit("minutes");
    reveal_strlit("h");
    reveal_strlit("hr");
    reveal_strlit("hrs");
    reveal_strlit("hour");
    reveal_strlit("hours");
    reveal_strlit("d");
    reveal_strlit("day");
    reveal_strlit("days");
}

/// The whole seconds and the rest of a span make up its milliseconds.
pub proof fn law_span_adds_up(a: Seq<char>, d: Duration)
    requires
        time::duration_of(a) == Some(d),
        time::duration_fits(a),
    ensures
        time::duration_millis(a) == Some(d.secs * 1000 + d.nanos as int / 1_000_000),
        d.nanos < 1_000_000_000,
        d.nanos % 1_000_000 == 0,
{
    let ms = time::duration_millis(a)->0;
    assert(ms >= 0) by {
        let t = text::trimmed(a);
        let v = numbers::read_unsigned(time::digits_in(t), 10, u64::MAX as int)->0;
        lemma_numeral(time::digits_in(t));
        let u = time::unit_millis(text::lowercase(text::trimmed(time::others_in(t))))->0;
        assert(v >= 0) by {
            lemma_numeral(time::digits_in(t).skip(1));
        }
        assert(v * u >= 0) by (nonlinear_arith)
            requires
                v >= 0,
                u >= 0,
        ;
    }
}

proof fn lemma_numeral(s: Seq<char>)
    ensures
        numbers::numeral(s, 10) >= 0,
    decreases s.len(),
{
    if s.len() > 0 {
        lemma_numeral(s.drop_last());
    }
}

/// `and`, `or` and `not` are operators in any letter case.
pub proof fn law_operators_in_any_case(w: Seq<char>)
    ensures
        text::same_ignoring_case(w, "and"@) ==> super::lexer::operator(w) == Some(super::lexer::TokenView::And),
        text::same_ignoring_case(w, "or"@) ==> super::lexer::operator(w) == Some(super::lexer::TokenView::Or),
        text::same_ignoring_case(w, "not"@) ==> super::lexer::operator(w) == Some(super::lexer::TokenView::Not),
{
    reveal_strlit("and");
    reveal_strlit("or");
    reveal_strlit("not");
    assert(text::ascii_lowered("and"@)[0] == 'a');
    assert(text::ascii_lowered("or"@)[0] == 'o');
    assert(text::ascii_lowered("not"@)[0] == 'n');
}

} // verus!
