//! What the steps of a query select.

use super::dedup::Row;
use super::laws;
use super::matcher::{self, ExprView};
use super::pipeline::{self, ModifierView};
use super::time::{self, Duration};
use super::QueryView;
use crate::logitem::LogView;
use crate::service::{self, ServiceView};
use vstd::prelude::*;

verus! {

/// A row is among those kept exactly where it stood before and passes.
proof fn lemma_kept(rows: Seq<Row>, p: spec_fn(Row) -> bool, r: Row)
    ensures
        rows.filter(p).contains(r) == (rows.contains(r) && p(r)),
    decreases rows.len(),
{
    reveal(Seq::filter);
    if rows.len() > 0 {
        let front = rows.drop_last();
        let last = rows.last();
        lemma_kept(front, p, r);
        let f = front.filter(p);
        assert(rows =~= front.push(last));
        assert(rows.contains(r) == (front.contains(r) || r == last)) by {
            if front.contains(r) {
                let k = choose|k: int| 0 <= k < front.len() && front[k] == r;
                assert(rows[k] == r);
            }
            if r == last {
                assert(rows[rows.len() - 1] == r);
            }
        }
        if p(last) {
            assert(f.push(last).contains(r) == (f.contains(r) || r == last)) by {
                if f.contains(r) {
                    let k = choose|k: int| 0 <= k < f.len() && f[k] == r;
                    assert(f.push(last)[k] == r);
                }
                if r == last {
                    assert(f.push(last)[f.len() as int] == r);
                }
            }
        }
    }
}

/// A filter keeps the lines that it lets through, in order, and no others.
pub proof fn law_filter_step(rows: Seq<Row>, e: ExprView, logs: Seq<LogView>, opts: Seq<ServiceView>, now: u64)
    ensures
        pipeline::stepped(rows, ModifierView::Filter(e), logs, opts, now) == rows.filter(|r: Row| e.holds(r.log)),
{
    let k = pipeline::condition(ModifierView::Filter(e), now)->0;
    laws::lemma_filter_alike(rows, |r: Row| k.has(r.log), |r: Row| e.holds(r.log));
}

/// A filter behind a bar selects what both filters joined by `and` select.
pub proof fn law_filter_stage_is_conjunction(
    a: ExprView,
    b: ExprView,
    logs: Seq<LogView>,
    opts: Seq<ServiceView>,
    now: u64,
)
    ensures
        (QueryView { base: Some(a), pipeline: seq![ModifierView::Filter(b)] }).result(logs, opts, now) == (QueryView {
            base: Some(ExprView::And(seq![a, b])),
            pipeline: seq![],
        }).result(logs, opts, now),
{
    let q = QueryView { base: Some(a), pipeline: seq![ModifierView::Filter(b)] };
    let c = ExprView::And(seq![a, b]);
    let all = pipeline::all_rows(logs);
    let x = Some(a);
    let y = Some(c);
    let first = |r: Row| service::service_enabled(opts, r.log.service) && (x matches Some(e) ==> e.holds(r.log));
    let second = |r: Row| b.holds(r.log);
    let both = |r: Row| service::service_enabled(opts, r.log.service) && (y matches Some(e) ==> e.holds(r.log));
    reveal_with_fuel(pipeline::run_from, 3);
    law_filter_step(pipeline::selected(logs, Some(a), opts), b, logs, opts, now);
    laws::lemma_filter_twice(all, first, second);
    assert forall|r: Row| (first(r) && second(r)) == #[trigger] both(r) by {
        let two = seq![a, b];
        matcher::law_connectives(two, a, r.log);
        assert(two[0] == a && two[1] == b);
        if a.holds(r.log) && b.holds(r.log) {
            assert(forall|k: int| 0 <= k < two.len() ==> (#[trigger] two[k]).holds(r.log));
        }
    }
    laws::lemma_filter_alike(all, both, |r: Row| first(r) && second(r));
}

/// A query without steps selects exactly the lines of enabled services that its
/// filter lets through.
pub proof fn law_base_selects(base: Option<ExprView>, logs: Seq<LogView>, opts: Seq<ServiceView>, now: u64, k: int)
    requires
        0 <= k < logs.len(),
        logs.len() <= usize::MAX,
    ensures
        (QueryView { base, pipeline: seq![] }).result(logs, opts, now).contains(
            Row { index: k as usize, log: logs[k] },
        ) == (service::service_enabled(opts, logs[k].service) && (match base {
            Some(e) => e.holds(logs[k]),
            None => true,
        })),
{
    let all = pipeline::all_rows(logs);
    let r = Row { index: k as usize, log: logs[k] };
    assert(all[k] == r);
    lemma_kept(
        all,
        |r: Row| service::service_enabled(opts, r.log.service) && (base matches Some(e) ==> e.holds(r.log)),
        r,
    );
}

/// One more step of a query works on what the steps before it have left.
pub proof fn law_steps_follow_each_other(
    q: QueryView,
    m: ModifierView,
    logs: Seq<LogView>,
    opts: Seq<ServiceView>,
    now: u64,
)
    ensures
        (QueryView { base: q.base, pipeline: q.pipeline.push(m) }).result(logs, opts, now) == pipeline::stepped(
            q.result(logs, opts, now),
            m,
            logs,
            opts,
            now,
        ),
{
    lemma_run_push(pipeline::selected(logs, q.base, opts), q.pipeline, m, 0, logs, opts, now);
}

proof fn lemma_run_push(
    rows: Seq<Row>,
    pipe: Seq<ModifierView>,
    m: ModifierView,
    i: int,
    logs: Seq<LogView>,
    opts: Seq<ServiceView>,
    now: u64,
)
    requires
        0 <= i <= pipe.len(),
    ensures
        pipeline::run_from(rows, pipe.push(m), i, logs, opts, now) == pipeline::stepped(
            pipeline::run_from(rows, pipe, i, logs, opts, now),
            m,
            logs,
            opts,
            now,
        ),
    decreases pipe.len() - i,
{
    let more = pipe.push(m);
    reveal_with_fuel(pipeline::run_from, 3);
    if i < pipe.len() {
        assert(more[i] == pipe[i]);
        lemma_run_push(pipeline::stepped(rows, pipe[i], logs, opts, now), pipe, m, i + 1, logs, opts, now);
    } else {
        assert(more[i] == m);
    }
}

/// The seconds that a date stands for, where there is one and it is read.
pub open spec fn dated(log: LogView) -> Option<int> {
    match log.timestamp {
        Some(ts) => time::timestamp_secs(ts),
        None => None,
    }
}

/// `since` keeps the lines that are no older than the span, and those without a date.
pub proof fn law_since_step(rows: Seq<Row>, d: Duration, logs: Seq<LogView>, opts: Seq<ServiceView>, now: u64)
    ensures
        pipeline::stepped(rows, ModifierView::Since(d), logs, opts, now) == rows.filter(
            |r: Row|
                match dated(r.log) {
                    Some(t) => now - t <= d.secs,
                    None => true,
                },
        ),
{
    let k = pipeline::condition(ModifierView::Since(d), now)->0;
    laws::lemma_filter_alike(
        rows,
        |r: Row| k.has(r.log),
        |r: Row|
            match dated(r.log) {
                Some(t) => now - t <= d.secs,
                None => true,
            },
    );
}

/// `before` keeps the lines that are at least as old as the span, and those without a
/// date; a line of the very beginning of time is as old as anything.
pub proof fn law_before_step(rows: Seq<Row>, d: Duration, logs: Seq<LogView>, opts: Seq<ServiceView>, now: u64)
    ensures
        pipeline::stepped(rows, ModifierView::BeforeTime(d), logs, opts, now) == rows.filter(
            |r: Row|
                match dated(r.log) {
                    Some(t) => now - t >= d.secs || t == 0,
                    None => true,
                },
        ),
{
    let k = pipeline::condition(ModifierView::BeforeTime(d), now)->0;
    laws::lemma_filter_alike(
        rows,
        |r: Row| k.has(r.log),
        |r: Row|
            match dated(r.log) {
                Some(t) => now - t >= d.secs || t == 0,
                None => true,
            },
    );
}

/// The first `n` lines and the last ones that are left make up all lines.
pub proof fn law_first_and_last_share_out(
    rows: Seq<Row>,
    n: usize,
    m: usize,
    logs: Seq<LogView>,
    opts: Seq<ServiceView>,
    now: u64,
)
    ensures
        pipeline::stepped(rows, ModifierView::First(n), logs, opts, now).len() == (if n < rows.len() {
            n as int
        } else {
            rows.len() as int
        }),
        n + m == rows.len() ==> pipeline::stepped(rows, ModifierView::First(n), logs, opts, now)
            + pipeline::stepped(rows, ModifierView::Last(m), logs, opts, now) == rows,
        n >= rows.len() ==> pipeline::stepped(rows, ModifierView::First(n), logs, opts, now) == rows,
        m >= rows.len() ==> pipeline::stepped(rows, ModifierView::Last(m), logs, opts, now) == rows,
{
    if n + m == rows.len() {
        assert(pipeline::stepped(rows, ModifierView::First(n), logs, opts, now) + pipeline::stepped(
            rows,
            ModifierView::Last(m),
            logs,
            opts,
            now,
        ) =~= rows);
    }
}

/// `context` selects a line of an enabled service exactly where a line that was
/// selected stands at most `after` places before it or `before` places behind it.
pub proof fn law_context_step(
    rows: Seq<Row>,
    before: usize,
    after: usize,
    logs: Seq<LogView>,
    opts: Seq<ServiceView>,
    now: u64,
    k: int,
)
    requires
        0 <= k < logs.len(),
        logs.len() <= usize::MAX,
    ensures
        pipeline::stepped(rows, ModifierView::Context { before, after }, logs, opts, now).contains(
            Row { index: k as usize, log: logs[k] },
        ) == (service::service_enabled(opts, logs[k].service) && exists|j: int|
            0 <= j < rows.len() && k - after <= (#[trigger] rows[j]).index <= k + before),
        pipeline::stepped(rows, ModifierView::BeforeContext(before), logs, opts, now) == pipeline::stepped(
            rows,
            ModifierView::Context { before, after: 0 },
            logs,
            opts,
            now,
        ),
        pipeline::stepped(rows, ModifierView::AfterContext(after), logs, opts, now) == pipeline::stepped(
            rows,
            ModifierView::Context { before: 0, after },
            logs,
            opts,
            now,
        ),
{
    let all = pipeline::all_rows(logs);
    let r = Row { index: k as usize, log: logs[k] };
    assert(all[k] == r);
    lemma_kept(
        all,
        |r: Row|
            service::service_enabled(opts, r.log.service) && pipeline::near(
                rows,
                r.index as int,
                before as int,
                after as int,
            ),
        r,
    );
    if pipeline::near(rows, k, before as int, after as int) {
        let j = choose|j: int|
            0 <= j < rows.len() && (#[trigger] rows[j]).index - before <= k <= rows[j].index + after;
        assert(k - after <= rows[j].index <= k + before);
    }
    if exists|j: int| 0 <= j < rows.len() && k - after <= (#[trigger] rows[j]).index <= k + before {
        let j = choose|j: int| 0 <= j < rows.len() && k - after <= (#[trigger] rows[j]).index <= k + before;
        assert(rows[j].index - before <= k <= rows[j].index + after);
    }
}

/// A step looks at more than one line unless it is a filter or looks at the time.
pub proof fn law_streams(q: QueryView)
    ensures
        q.streams() == exists|i: int|
            0 <= i < q.pipeline.len() && !((#[trigger] q.pipeline[i]) is Filter || q.pipeline[i] is Since
                || q.pipeline[i] is BeforeTime),
{
    if q.streams() {
        let i = choose|i: int|
            0 <= i < q.pipeline.len() && pipeline::condition(#[trigger] q.pipeline[i], 0) is None;
        assert(!(q.pipeline[i] is Filter || q.pipeline[i] is Since || q.pipeline[i] is BeforeTime));
    }
    if exists|i: int|
        0 <= i < q.pipeline.len() && !((#[trigger] q.pipeline[i]) is Filter || q.pipeline[i] is Since
            || q.pipeline[i] is BeforeTime) {
        let i = choose|i: int|
            0 <= i < q.pipeline.len() && !((#[trigger] q.pipeline[i]) is Filter || q.pipeline[i] is Since
                || q.pipeline[i] is BeforeTime);
        assert(pipeline::condition(q.pipeline[i], 0) is None);
    }
}

/// Whether each row is the line at its place.
pub open spec fn are_lines(rows: Seq<Row>, logs: Seq<LogView>) -> bool {
    forall|i: int|
        0 <= i < rows.len() ==> (#[trigger] rows[i]).index < logs.len() && rows[i].log == logs[rows[i].index as int]
}

proof fn lemma_filter_lines(rows: Seq<Row>, p: spec_fn(Row) -> bool, logs: Seq<LogView>)
    requires
        are_lines(rows, logs),
    ensures
        are_lines(rows.filter(p), logs),
{
    let f = rows.filter(p);
    assert forall|i: int| 0 <= i < f.len() implies (#[trigger] f[i]).index < logs.len() && f[i].log
        == logs[f[i].index as int] by {
        assert(f.contains(f[i]));
        lemma_kept(rows, p, f[i]);
    }
}

proof fn lemma_step_lines(rows: Seq<Row>, m: ModifierView, logs: Seq<LogView>, opts: Seq<ServiceView>, now: u64)
    requires
        are_lines(rows, logs),
        logs.len() <= usize::MAX,
        !(m is Deduplicate),
    ensures
        are_lines(pipeline::stepped(rows, m, logs, opts, now), logs),
{
    let all = pipeline::all_rows(logs);
    assert(are_lines(all, logs));
    match pipeline::condition(m, now) {
        Some(k) => lemma_filter_lines(rows, |r: Row| k.has(r.log), logs),
        None => match m {
            ModifierView::Context { before, after } => lemma_filter_lines(
                all,
                |r: Row|
                    service::service_enabled(opts, r.log.service) && pipeline::near(
                        rows,
                        r.index as int,
                        before as int,
                        after as int,
                    ),
                logs,
            ),
            ModifierView::BeforeContext(n) => lemma_filter_lines(
                all,
                |r: Row|
                    service::service_enabled(opts, r.log.service) && pipeline::near(rows, r.index as int, n as int, 0),
                logs,
            ),
            ModifierView::AfterContext(n) => lemma_filter_lines(
                all,
                |r: Row|
                    service::service_enabled(opts, r.log.service) && pipeline::near(rows, r.index as int, 0, n as int),
                logs,
            ),
            _ => {},
        },
    }
}

proof fn lemma_run_lines(
    rows: Seq<Row>,
    pipe: Seq<ModifierView>,
    i: int,
    logs: Seq<LogView>,
    opts: Seq<ServiceView>,
    now: u64,
)
    requires
        are_lines(rows, logs),
        logs.len() <= usize::MAX,
        forall|k: int| 0 <= k < pipe.len() ==> !((#[trigger] pipe[k]) is Deduplicate),
    ensures
        are_lines(pipeline::run_from(rows, pipe, i, logs, opts, now), logs),
    decreases pipe.len() - i,
{
    if 0 <= i < pipe.len() {
        lemma_step_lines(rows, pipe[i], logs, opts, now);
        lemma_run_lines(pipeline::stepped(rows, pipe[i], logs, opts, now), pipe, i + 1, logs, opts, now);
    }
}

/// A query that folds nothing selects lines as they stand in the log, each with its
/// place, and hands back no lines of its own.
pub proof fn law_selection_shows_lines(q: QueryView, logs: Seq<LogView>, opts: Seq<ServiceView>, now: u64)
    requires
        forall|k: int| 0 <= k < q.pipeline.len() ==> !((#[trigger] q.pipeline[k]) is Deduplicate),
        logs.len() <= usize::MAX,
    ensures
        are_lines(q.result(logs, opts, now), logs),
        super::selection(q, logs, opts, now).1 is None,
        super::selection(q, logs, opts, now).0.len() == q.result(logs, opts, now).len(),
        forall|i: int|
            0 <= i < q.result(logs, opts, now).len() ==> #[trigger] super::selection(q, logs, opts, now).0[i]
                == q.result(logs, opts, now)[i].index,
{
    let all = pipeline::all_rows(logs);
    assert(are_lines(all, logs));
    lemma_filter_lines(
        all,
        |r: Row| service::service_enabled(opts, r.log.service) && (q.base matches Some(e) ==> e.holds(r.log)),
        logs,
    );
    lemma_run_lines(pipeline::selected(logs, q.base, opts), q.pipeline, 0, logs, opts, now);
}

} // verus!
