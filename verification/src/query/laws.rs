//! What holds of queries as a whole.

use super::dedup::{self, Row};
use super::lexer::{self, TokenView};
use super::matcher::{self, ExprView, MatcherView};
use super::parser;
use super::pipeline::{self, ModifierView};
use super::stages;
use super::QueryView;
use crate::logitem::LogView;
use crate::service::{self, ServiceView};
use crate::text;
use vstd::prelude::*;

verus! {

// ---------------------------------------------------------------------------
// Quotes
// ---------------------------------------------------------------------------

/// A text as it is written between two quotes `d`.
pub open spec fn escaped(w: Seq<char>, d: char) -> Seq<char>
    decreases w.len(),
{
    if w.len() == 0 {
        seq![]
    } else if w[0] == d || w[0] == '\\' {
        seq!['\\', w[0]] + escaped(w.skip(1), d)
    } else {
        seq![w[0]] + escaped(w.skip(1), d)
    }
}

pub proof fn lemma_escaped_reads(pre: Seq<char>, w: Seq<char>, d: char, post: Seq<char>, acc: Seq<char>)
    requires
        d != '\\',
    ensures
        lexer::quoted(pre + escaped(w, d) + seq![d] + post, pre.len() as int, d, acc) == (
            acc + w,
            (pre.len() + escaped(w, d).len() + 1) as int,
        ),
    decreases w.len(),
{
    let s = pre + escaped(w, d) + seq![d] + post;
    if w.len() == 0 {
        assert(s[pre.len() as int] == d);
        assert(acc + w =~= acc);
    } else {
        let c = w[0];
        let step = if c == d || c == '\\' {
            seq!['\\', c]
        } else {
            seq![c]
        };
        lemma_escaped_reads(pre + step, w.skip(1), d, post, acc.push(c));
        assert((pre + step) + escaped(w.skip(1), d) + seq![d] + post =~= s);
        assert(acc.push(c) + w.skip(1) =~= acc + w);
        assert(s[pre.len() as int] == step[0]);
        if c == d || c == '\\' {
            assert(s[pre.len() as int + 1] == c);
        }
    }
}

/// Whatever quote a text is written in, and whatever it holds, it is read back
/// as it was: the quote and the backslash can be escaped.
pub proof fn law_escaping_reads_back(w: Seq<char>, d: char)
    requires
        matcher::quote(d),
    ensures
        lexer::tokens_of(in_quotes(w, d)) == Ok::<Seq<TokenView>, super::fault::Fault>(
            seq![TokenView::Matcher(MatcherView::Literal { text: w, case_sensitive: false })],
        ),
{
    let s = seq![d] + escaped(w, d) + seq![d];
    lemma_escaped_reads(seq![d], w, d, seq![], seq![]);
    assert(seq![d] + escaped(w, d) + seq![d] + Seq::<char>::empty() =~= s);
    assert(Seq::<char>::empty() + w =~= w);
    reveal_with_fuel(lexer::lexed, 2);
    assert(lexer::opening(s, 0) == Some((lexer::Form::Literal, false, 1int)));
    assert(Seq::<TokenView>::empty().push(
        TokenView::Matcher(MatcherView::Literal { text: w, case_sensitive: false }),
    ) =~= seq![TokenView::Matcher(MatcherView::Literal { text: w, case_sensitive: false })]);
}

/// A text between two quotes `d`.
pub open spec fn in_quotes(w: Seq<char>, d: char) -> Seq<char> {
    seq![d] + escaped(w, d) + seq![d]
}

/// What stands between quotes goes into the stage as it is.
pub proof fn lemma_quoted_stage(pre: Seq<char>, w: Seq<char>, d: char, post: Seq<char>, cur: Seq<char>)
    requires
        d != '\\',
    ensures
        stages::stages_from(pre + escaped(w, d) + seq![d] + post, pre.len() as int, cur, Some(d), false)
            == stages::stages_from(
            pre + escaped(w, d) + seq![d] + post,
            (pre.len() + escaped(w, d).len() + 1) as int,
            cur + escaped(w, d) + seq![d],
            None,
            false,
        ),
    decreases w.len(),
{
    let s = pre + escaped(w, d) + seq![d] + post;
    let n = pre.len() as int;
    if w.len() == 0 {
        assert(s[n] == d);
        assert(cur.push(d) =~= cur + escaped(w, d) + seq![d]);
    } else {
        let c = w[0];
        let step = if c == d || c == '\\' {
            seq!['\\', c]
        } else {
            seq![c]
        };
        lemma_quoted_stage(pre + step, w.skip(1), d, post, cur + step);
        assert((pre + step) + escaped(w.skip(1), d) + seq![d] + post =~= s);
        assert((cur + step) + escaped(w.skip(1), d) + seq![d] =~= cur + escaped(w, d) + seq![d]);
        assert(s[n] == step[0]);
        if c == d || c == '\\' {
            assert(s[n + 1] == c);
            reveal_with_fuel(stages::stages_from, 3);
            assert(cur.push('\\').push(c) =~= cur + step);
        } else {
            assert(cur.push(c) =~= cur + step);
        }
    }
}

/// The stages of what stands behind `pre` do not depend on `pre`.
pub proof fn lemma_stages_behind(
    pre: Seq<char>,
    s: Seq<char>,
    i: int,
    cur: Seq<char>,
    quote: Option<char>,
    esc: bool,
)
    requires
        0 <= i <= s.len(),
    ensures
        stages::stages_from(pre + s, pre.len() + i, cur, quote, esc) == stages::stages_from(s, i, cur, quote, esc),
    decreases s.len() - i,
{
    if i < s.len() {
        let c = s[i];
        assert((pre + s)[pre.len() + i] == c);
        if esc {
            lemma_stages_behind(pre, s, i + 1, cur.push(c), quote, false);
        } else if c == '\\' {
            lemma_stages_behind(pre, s, i + 1, cur.push(c), quote, true);
        } else if quote is Some {
            let after = if c == quote->0 {
                None
            } else {
                quote
            };
            lemma_stages_behind(pre, s, i + 1, cur.push(c), after, false);
        } else if matcher::quote(c) {
            lemma_stages_behind(pre, s, i + 1, cur.push(c), Some(c), false);
        } else if c == '|' {
            lemma_stages_behind(pre, s, i + 1, seq![], quote, false);
        } else {
            lemma_stages_behind(pre, s, i + 1, cur.push(c), quote, false);
        }
    }
}

/// A quoted text is one stage, whatever bars it holds; a bar behind it begins the next.
pub proof fn law_bars_in_quotes_split_nothing(w: Seq<char>, d: char, rest: Seq<char>)
    requires
        matcher::quote(d),
    ensures
        stages::stages_of(in_quotes(w, d)) == seq![in_quotes(w, d)],
        stages::stages_of(in_quotes(w, d) + seq!['|'] + rest) == seq![in_quotes(w, d)] + stages::stages_of(rest),
{
    let q = in_quotes(w, d);
    let n = q.len() as int;
    assert(Seq::<char>::empty().push(d) =~= seq![d]);
    assert(q + Seq::<char>::empty() =~= q);
    lemma_quoted_stage(seq![d], w, d, seq![], seq![d]);
    assert(q[0] == d);
    let s = q + seq!['|'] + rest;
    let post = seq!['|'] + rest;
    assert(q + post =~= s);
    lemma_quoted_stage(seq![d], w, d, post, seq![d]);
    assert(s[0] == d);
    assert(s[n] == '|');
    assert(stages::stages_of(s) == stages::stages_from(s, n, q, None, false));
    lemma_stages_behind(q + seq!['|'], rest, 0, seq![], None, false);
}

/// A text whose two ends are no white space stays as it is when it is trimmed.
pub proof fn lemma_trimmed(s: Seq<char>)
    requires
        s.len() > 0,
        !text::whitespace(s[0]),
        !text::whitespace(s.last()),
    ensures
        text::trimmed(s) == s,
{
    assert(s.skip(0) =~= s);
    assert(s.take(s.len() as int) =~= s);
}

/// No keyword is empty.
proof fn lemma_no_keyword()
    ensures
        !stages::is_keyword(seq![]),
{
    reveal_strlit("since");
    assert("since"@.len() > 0);
    reveal_strlit("before");
    assert("before"@.len() > 0);
    reveal_strlit("after");
    assert("after"@.len() > 0);
    reveal_strlit("context");
    assert("context"@.len() > 0);
    reveal_strlit("first");
    assert("first"@.len() > 0);
    reveal_strlit("last");
    assert("last"@.len() > 0);
    reveal_strlit("dedup");
    assert("dedup"@.len() > 0);
    reveal_strlit("deduplicate");
    assert("deduplicate"@.len() > 0);
}

/// The three quotes are interchangeable: a text in any of them, with the quote
/// itself and the backslash escaped, is the query that looks for that text.
pub proof fn law_quotes_interchangeable(w: Seq<char>, d: char)
    requires
        matcher::quote(d),
    ensures
        super::query_of(in_quotes(w, d)) == Ok::<QueryView, super::fault::Fault>(
            QueryView {
                base: Some(ExprView::Match(MatcherView::Literal { text: w, case_sensitive: false })),
                pipeline: seq![],
            },
        ),
        super::query_fits(in_quotes(w, d)),
{
    let q = in_quotes(w, d);
    let m = MatcherView::Literal { text: w, case_sensitive: false };
    assert(stages::stage_parts(q) == (Seq::<char>::empty(), Seq::<char>::empty()));
    lemma_no_keyword();
    lemma_trimmed(q);
    law_bars_in_quotes_split_nothing(w, d, seq![]);
    law_escaping_reads_back(w, d);
    let ts = seq![TokenView::Matcher(m)];
    reveal_with_fuel(parser::or_at, 2);
    reveal_with_fuel(parser::or_rest, 2);
    reveal_with_fuel(parser::and_at, 2);
    reveal_with_fuel(parser::and_rest, 2);
    reveal_with_fuel(parser::primary_at, 2);
    assert(parser::primary_at(ts, 0) == Ok::<(ExprView, int), super::fault::Fault>((ExprView::Match(m), 1)));
    assert(parser::filter_of(q) == Ok::<Option<ExprView>, super::fault::Fault>(Some(ExprView::Match(m))));
    assert(stages::modifier_of(q) == Ok::<Option<ModifierView>, super::fault::Fault>(
        Some(ModifierView::Filter(ExprView::Match(m))),
    ));
    reveal_with_fuel(super::query_from, 2);
    reveal_with_fuel(super::stages_fit, 2);
}

// ---------------------------------------------------------------------------
// The order of the lines
// ---------------------------------------------------------------------------

/// The lines stand in order, each at a place of the log.
pub open spec fn in_order(rows: Seq<Row>, n: int) -> bool {
    &&& forall|i: int, j: int| 0 <= i < j < rows.len() ==> (#[trigger] rows[i]).index < (#[trigger] rows[j]).index
    &&& forall|i: int| 0 <= i < rows.len() ==> (#[trigger] rows[i]).index < n
}

proof fn lemma_filter_in_order(rows: Seq<Row>, p: spec_fn(Row) -> bool, n: int)
    requires
        in_order(rows, n),
    ensures
        in_order(rows.filter(p), n),
        forall|i: int| 0 <= i < rows.filter(p).len() ==> rows.contains(#[trigger] rows.filter(p)[i]),
    decreases rows.len(),
{
    reveal(Seq::filter);
    if rows.len() > 0 {
        let front = rows.drop_last();
        lemma_filter_in_order(front, p, n);
        let f = front.filter(p);
        let all = rows.filter(p);
        assert forall|i: int| 0 <= i < all.len() implies rows.contains(#[trigger] all[i]) by {
            if i < f.len() {
                assert(front.contains(f[i]));
                let k = choose|k: int| 0 <= k < front.len() && front[k] == f[i];
                assert(rows[k] == all[i]);
            } else {
                assert(rows[rows.len() - 1] == all[i]);
            }
        }
        assert forall|i: int, j: int| 0 <= i < j < all.len() implies (#[trigger] all[i]).index < (
        #[trigger] all[j]).index by {
            if j < f.len() {
                assert(f[i].index < f[j].index);
            } else {
                assert(front.contains(f[i]));
                let k = choose|k: int| 0 <= k < front.len() && front[k] == f[i];
                assert(rows[k].index < rows[rows.len() - 1].index);
            }
        }
    }
}

proof fn lemma_step_in_order(rows: Seq<Row>, m: ModifierView, logs: Seq<LogView>, opts: Seq<ServiceView>, now: u64)
    requires
        in_order(rows, logs.len() as int),
        logs.len() <= usize::MAX,
    ensures
        in_order(pipeline::stepped(rows, m, logs, opts, now), logs.len() as int),
{
    let n = logs.len() as int;
    let all = pipeline::all_rows(logs);
    match pipeline::condition(m, now) {
        Some(k) => lemma_filter_in_order(rows, |r: Row| k.has(r.log), n),
        None => match m {
            ModifierView::Context { before, after } => {
                lemma_filter_in_order(
                    all,
                    |r: Row|
                        service::service_enabled(opts, r.log.service) && pipeline::near(
                            rows,
                            r.index as int,
                            before as int,
                            after as int,
                        ),
                    n,
                );
            },
            ModifierView::BeforeContext(before) => {
                lemma_filter_in_order(
                    all,
                    |r: Row|
                        service::service_enabled(opts, r.log.service) && pipeline::near(
                            rows,
                            r.index as int,
                            before as int,
                            0,
                        ),
                    n,
                );
            },
            ModifierView::AfterContext(after) => {
                lemma_filter_in_order(
                    all,
                    |r: Row|
                        service::service_enabled(opts, r.log.service) && pipeline::near(
                            rows,
                            r.index as int,
                            0,
                            after as int,
                        ),
                    n,
                );
            },
            ModifierView::Deduplicate(mode) => {
                dedup::law_fold_keeps_order(rows, rows.len() as int, mode);
                let entries = dedup::entries_of(rows, rows.len() as int, mode);
                let out = dedup::deduplicated(rows, mode);
                assert forall|i: int| 0 <= i < out.len() implies (#[trigger] out[i]).index < n by {
                    assert(out[i].index == entries[i].index);
                }
                assert forall|i: int, j: int| 0 <= i < j < out.len() implies (#[trigger] out[i]).index < (
                #[trigger] out[j]).index by {
                    assert(entries[i].index < entries[j].index);
                }
            },
            _ => {},
        },
    }
}

proof fn lemma_run_in_order(
    rows: Seq<Row>,
    pipe: Seq<ModifierView>,
    i: int,
    logs: Seq<LogView>,
    opts: Seq<ServiceView>,
    now: u64,
)
    requires
        in_order(rows, logs.len() as int),
        logs.len() <= usize::MAX,
    ensures
        in_order(pipeline::run_from(rows, pipe, i, logs, opts, now), logs.len() as int),
    decreases pipe.len() - i,
{
    if 0 <= i < pipe.len() {
        lemma_step_in_order(rows, pipe[i], logs, opts, now);
        lemma_run_in_order(pipeline::stepped(rows, pipe[i], logs, opts, now), pipe, i + 1, logs, opts, now);
    }
}

/// A query selects lines of the log in the order of the log, none twice.
pub proof fn law_selection_in_order(q: QueryView, logs: Seq<LogView>, opts: Seq<ServiceView>, now: u64)
    requires
        logs.len() <= usize::MAX,
    ensures
        in_order(q.result(logs, opts, now), logs.len() as int),
{
    let all = pipeline::all_rows(logs);
    lemma_filter_in_order(
        all,
        |r: Row|
            service::service_enabled(opts, r.log.service) && (q.base matches Some(e) ==> e.holds(r.log)),
        logs.len() as int,
    );
    lemma_run_in_order(pipeline::selected(logs, q.base, opts), q.pipeline, 0, logs, opts, now);
}

// ---------------------------------------------------------------------------
// Single lines
// ---------------------------------------------------------------------------

pub proof fn lemma_filter_twice(rows: Seq<Row>, p: spec_fn(Row) -> bool, q: spec_fn(Row) -> bool)
    ensures
        rows.filter(p).filter(q) == rows.filter(|r: Row| p(r) && q(r)),
    decreases rows.len(),
{
    reveal(Seq::filter);
    if rows.len() > 0 {
        lemma_filter_twice(rows.drop_last(), p, q);
        let f = rows.drop_last().filter(p);
        if p(rows.last()) {
            assert(f.push(rows.last()).drop_last() =~= f);
        }
    }
}

pub proof fn lemma_filter_alike(rows: Seq<Row>, p: spec_fn(Row) -> bool, q: spec_fn(Row) -> bool)
    requires
        forall|r: Row| #[trigger] p(r) == q(r),
    ensures
        rows.filter(p) == rows.filter(q),
    decreases rows.len(),
{
    reveal(Seq::filter);
    if rows.len() > 0 {
        lemma_filter_alike(rows.drop_last(), p, q);
        assert(p(rows.last()) == q(rows.last()));
    }
}

proof fn lemma_run_conditions(
    q: QueryView,
    rows: Seq<Row>,
    i: int,
    logs: Seq<LogView>,
    opts: Seq<ServiceView>,
    now: u64,
)
    requires
        0 <= i <= q.pipeline.len(),
        !q.streams(),
    ensures
        pipeline::run_from(rows, q.pipeline, i, logs, opts, now) == rows.filter(
            |r: Row| q.lets_through(i, r.log, now),
        ),
    decreases q.pipeline.len() - i,
{
    let pass = |r: Row| q.lets_through(i, r.log, now);
    if i < q.pipeline.len() {
        let m = q.pipeline[i];
        assert(pipeline::condition(m, 0) is Some);
        let k = pipeline::condition(m, now)->0;
        let first = |r: Row| k.has(r.log);
        let rest = |r: Row| q.lets_through(i + 1, r.log, now);
        lemma_run_conditions(q, rows.filter(first), i + 1, logs, opts, now);
        lemma_filter_twice(rows, first, rest);
        lemma_filter_alike(rows, |r: Row| first(r) && rest(r), pass);
    } else {
        lemma_filter_true(rows, pass);
    }
}

proof fn lemma_filter_true(rows: Seq<Row>, p: spec_fn(Row) -> bool)
    requires
        forall|r: Row| #[trigger] p(r),
    ensures
        rows.filter(p) == rows,
    decreases rows.len(),
{
    reveal(Seq::filter);
    if rows.len() > 0 {
        lemma_filter_true(rows.drop_last(), p);
        assert(p(rows.last()));
        assert(rows.drop_last().push(rows.last()) =~= rows);
    }
}

/// A query whose steps look at single lines only selects exactly the lines of
/// enabled services that it accepts one by one.
pub proof fn law_selection_line_by_line(q: QueryView, logs: Seq<LogView>, opts: Seq<ServiceView>, now: u64)
    requires
        !q.streams(),
    ensures
        q.result(logs, opts, now) == pipeline::all_rows(logs).filter(
            |r: Row| service::service_enabled(opts, r.log.service) && q.accepts(r.log, now),
        ),
{
    let all = pipeline::all_rows(logs);
    let start = |r: Row|
        service::service_enabled(opts, r.log.service) && (q.base matches Some(e) ==> e.holds(r.log));
    let rest = |r: Row| q.lets_through(0, r.log, now);
    lemma_run_conditions(q, pipeline::selected(logs, q.base, opts), 0, logs, opts, now);
    lemma_filter_twice(all, start, rest);
    lemma_filter_alike(
        all,
        |r: Row| start(r) && rest(r),
        |r: Row| service::service_enabled(opts, r.log.service) && q.accepts(r.log, now),
    );
}

/// The query of an empty text accepts every line and selects all lines of enabled services.
pub proof fn law_empty_query(input: Seq<char>, log: LogView, now: u64)
    requires
        text::trimmed(input).len() == 0,
    ensures
        super::query_of(input) == Ok::<QueryView, super::fault::Fault>(QueryView { base: None, pipeline: seq![] }),
        (QueryView { base: None, pipeline: seq![] }).accepts(log, now),
{
}

/// A query can be tested on every line whose date can be turned into seconds.
pub proof fn law_dated_lines_testable(q: QueryView, log: LogView, now: u64)
    requires
        pipeline::date_fits(log),
    ensures
        q.testable(log, now),
{
    lemma_testable_from(q, 0, log, now);
}

proof fn lemma_testable_from(q: QueryView, i: int, log: LogView, now: u64)
    requires
        pipeline::date_fits(log),
        0 <= i,
    ensures
        q.testable_from(i, log, now),
    decreases q.pipeline.len() - i,
{
    if i < q.pipeline.len() {
        lemma_testable_from(q, i + 1, log, now);
    }
}

} // verus!
