//! Running a query over all lines.

use super::dedup::{self, fold_repeats, DedupMode, Row};
use super::matcher::{eval_expr, Expr, ExprView};
use super::time::{self, parse_timestamp_secs, timestamp_in_range, Duration};
use crate::logitem::{self, LogItem, LogView};
use crate::service::{self, is_service_enabled, ContainerFilterOption, ServiceView};
use std::collections::VecDeque;
use vstd::prelude::*;

verus! {

/// A step of a query.
#[derive(Debug, PartialEq)]
pub enum Modifier {
    Filter(Expr),
    Since(Duration),
    BeforeTime(Duration),
    Context { before: usize, after: usize },
    BeforeContext(usize),
    AfterContext(usize),
    First(usize),
    Last(usize),
    Deduplicate(DedupMode),
}

/// What a step holds.
pub enum ModifierView {
    Filter(ExprView),
    Since(Duration),
    BeforeTime(Duration),
    Context { before: usize, after: usize },
    BeforeContext(usize),
    AfterContext(usize),
    First(usize),
    Last(usize),
    Deduplicate(DedupMode),
}

impl View for Modifier {
    type V = ModifierView;

    open spec fn view(&self) -> ModifierView {
        match self {
            Modifier::Filter(e) => ModifierView::Filter(e@),
            Modifier::Since(d) => ModifierView::Since(*d),
            Modifier::BeforeTime(d) => ModifierView::BeforeTime(*d),
            Modifier::Context { before, after } => ModifierView::Context { before: *before, after: *after },
            Modifier::BeforeContext(n) => ModifierView::BeforeContext(*n),
            Modifier::AfterContext(n) => ModifierView::AfterContext(*n),
            Modifier::First(n) => ModifierView::First(*n),
            Modifier::Last(n) => ModifierView::Last(*n),
            Modifier::Deduplicate(m) => ModifierView::Deduplicate(*m),
        }
    }
}

impl Clone for Modifier {
    fn clone(&self) -> (r: Modifier)
        ensures
            r@ == self@,
    {
        match self {
            Modifier::Filter(e) => Modifier::Filter(e.clone()),
            Modifier::Since(d) => Modifier::Since(*d),
            Modifier::BeforeTime(d) => Modifier::BeforeTime(*d),
            Modifier::Context { before, after } => Modifier::Context { before: *before, after: *after },
            Modifier::BeforeContext(n) => Modifier::BeforeContext(*n),
            Modifier::AfterContext(n) => Modifier::AfterContext(*n),
            Modifier::First(n) => Modifier::First(*n),
            Modifier::Last(n) => Modifier::Last(*n),
            Modifier::Deduplicate(m) => Modifier::Deduplicate(*m),
        }
    }
}

/// What each step of a list holds.
pub open spec fn modifiers_view(v: Seq<Modifier>) -> Seq<ModifierView> {
    v.map_values(|m: Modifier| m@)
}

/// The point in time that lies `d` before `now`.
pub open spec fn ago(now: u64, d: Duration) -> int {
    if d.secs <= now {
        now - d.secs
    } else {
        0
    }
}

fn threshold(now: u64, d: Duration) -> (r: u64)
    ensures
        r == ago(now, d),
{
    now.saturating_sub(d.as_secs())
}

/// A condition on single lines.
pub enum Keep {
    Passes(ExprView),
    NotBefore(int),
    NotAfter(int),
}

/// The seconds that a line is dated with, where it is.
pub open spec fn log_secs(log: LogView) -> Option<int> {
    match log.timestamp {
        Some(ts) => time::timestamp_secs(ts),
        None => None,
    }
}

/// Whether the line's date, if it has one, can be turned into seconds.
pub open spec fn date_fits(log: LogView) -> bool {
    log.timestamp is Some ==> time::timestamp_fits(log.timestamp->0)
}

impl Keep {
    /// Whether the line stays. A line without a date stays whatever the time.
    pub open spec fn has(self, log: LogView) -> bool {
        match self {
            Keep::Passes(e) => e.holds(log),
            Keep::NotBefore(t) => log_secs(log) matches Some(s) ==> s >= t,
            Keep::NotAfter(t) => log_secs(log) matches Some(s) ==> s <= t,
        }
    }

    /// Whether the condition can be tested on the line.
    pub open spec fn ready(self, log: LogView) -> bool {
        self is Passes || date_fits(log)
    }
}

/// The condition that a step puts on single lines, if it is such a step.
pub open spec fn condition(m: ModifierView, now: u64) -> Option<Keep> {
    match m {
        ModifierView::Filter(e) => Some(Keep::Passes(e)),
        ModifierView::Since(d) => Some(Keep::NotBefore(ago(now, d))),
        ModifierView::BeforeTime(d) => Some(Keep::NotAfter(ago(now, d))),
        _ => None,
    }
}

/// Whether the step's condition can be tested on the line.
pub fn condition_in_range(m: &Modifier, log: &LogItem) -> (r: bool)
    ensures
        forall|now: u64|
            match #[trigger] condition(m@, now) {
                Some(k) => r == k.ready(log@),
                None => r,
            },
{
    match m {
        Modifier::Since(_) | Modifier::BeforeTime(_) => match &log.timestamp {
            Some(ts) => timestamp_in_range(ts.as_str()),
            None => true,
        },
        _ => true,
    }
}

/// Tests the step's condition, where it has one.
pub fn passes(m: &Modifier, log: &LogItem, now: u64) -> (r: bool)
    requires
        condition(m@, now) matches Some(k) ==> k.ready(log@),
    ensures
        r == (condition(m@, now) matches Some(k) ==> k.has(log@)),
{
    match m {
        Modifier::Filter(e) => eval_expr(e, log),
        Modifier::Since(d) => match &log.timestamp {
            Some(ts) => match parse_timestamp_secs(ts.as_str()) {
                Some(secs) => secs >= threshold(now, *d),
                None => true,
            },
            None => true,
        },
        Modifier::BeforeTime(d) => match &log.timestamp {
            Some(ts) => match parse_timestamp_secs(ts.as_str()) {
                Some(secs) => secs <= threshold(now, *d),
                None => true,
            },
            None => true,
        },
        _ => true,
    }
}

// ---------------------------------------------------------------------------
// The steps on the list of lines
// ---------------------------------------------------------------------------

/// All lines with their places.
pub open spec fn all_rows(logs: Seq<LogView>) -> Seq<Row> {
    Seq::new(logs.len(), |i: int| Row { index: i as usize, log: logs[i] })
}

/// The lines of enabled services that the filter lets through.
pub open spec fn selected(logs: Seq<LogView>, base: Option<ExprView>, opts: Seq<ServiceView>) -> Seq<Row> {
    all_rows(logs).filter(
        |r: Row| service::service_enabled(opts, r.log.service) && (base matches Some(e) ==> e.holds(r.log)),
    )
}

/// Whether place `k` lies at most `before` places before or `after` places behind one of the lines.
pub open spec fn near(rows: Seq<Row>, k: int, before: int, after: int) -> bool {
    exists|j: int| 0 <= j < rows.len() && (#[trigger] rows[j]).index - before <= k <= rows[j].index + after
}

/// The lines of enabled services around the given lines, and those lines.
pub open spec fn with_context(
    rows: Seq<Row>,
    logs: Seq<LogView>,
    before: int,
    after: int,
    opts: Seq<ServiceView>,
) -> Seq<Row> {
    all_rows(logs).filter(
        |r: Row| service::service_enabled(opts, r.log.service) && near(rows, r.index as int, before, after),
    )
}

/// The lines after a step.
pub open spec fn stepped(
    rows: Seq<Row>,
    m: ModifierView,
    logs: Seq<LogView>,
    opts: Seq<ServiceView>,
    now: u64,
) -> Seq<Row> {
    match condition(m, now) {
        Some(k) => rows.filter(|r: Row| k.has(r.log)),
        None => match m {
            ModifierView::Context { before, after } => with_context(rows, logs, before as int, after as int, opts),
            ModifierView::BeforeContext(n) => with_context(rows, logs, n as int, 0, opts),
            ModifierView::AfterContext(n) => with_context(rows, logs, 0, n as int, opts),
            ModifierView::First(n) => if n < rows.len() {
                rows.take(n as int)
            } else {
                rows
            },
            ModifierView::Last(n) => if n < rows.len() {
                rows.skip(rows.len() - n)
            } else {
                rows
            },
            ModifierView::Deduplicate(mode) => dedup::deduplicated(rows, mode),
            _ => rows,
        },
    }
}

/// How many lines behind each line a step reaches.
pub open spec fn reach(m: ModifierView) -> int {
    match m {
        ModifierView::Context { after, .. } => after as int,
        ModifierView::AfterContext(n) => n as int,
        _ => 0,
    }
}

/// Whether a step can be made on the lines.
pub open spec fn step_ready(rows: Seq<Row>, m: ModifierView, now: u64) -> bool {
    match condition(m, now) {
        Some(k) => forall|i: int| 0 <= i < rows.len() ==> k.ready((#[trigger] rows[i]).log),
        None => match m {
            ModifierView::Deduplicate(mode) => dedup::dedup_ready(rows, mode),
            _ => forall|i: int| 0 <= i < rows.len() ==> (#[trigger] rows[i]).index + reach(m) <= usize::MAX,
        },
    }
}

/// The lines after the steps from `i` on.
pub open spec fn run_from(
    rows: Seq<Row>,
    pipe: Seq<ModifierView>,
    i: int,
    logs: Seq<LogView>,
    opts: Seq<ServiceView>,
    now: u64,
) -> Seq<Row>
    decreases pipe.len() - i,
{
    if 0 <= i < pipe.len() {
        run_from(stepped(rows, pipe[i], logs, opts, now), pipe, i + 1, logs, opts, now)
    } else {
        rows
    }
}

/// Whether the steps from `i` on can be made.
pub open spec fn run_ready(
    rows: Seq<Row>,
    pipe: Seq<ModifierView>,
    i: int,
    logs: Seq<LogView>,
    opts: Seq<ServiceView>,
    now: u64,
) -> bool
    decreases pipe.len() - i,
{
    if 0 <= i < pipe.len() {
        step_ready(rows, pipe[i], now) && run_ready(
            stepped(rows, pipe[i], logs, opts, now),
            pipe,
            i + 1,
            logs,
            opts,
            now,
        )
    } else {
        true
    }
}

/// What an optional filter holds.
pub open spec fn opt_expr(o: Option<Expr>) -> Option<ExprView> {
    match o {
        Some(e) => Some(e@),
        None => None,
    }
}

/// What the lines of the deque hold.
pub open spec fn deque_view(d: VecDeque<LogItem>) -> Seq<LogView> {
    logitem::logs_view(d@)
}

fn select_rows(logs: &VecDeque<LogItem>, base: &Option<Expr>, opts: &Vec<ContainerFilterOption>) -> (r: Vec<
    (usize, LogItem),
>)
    ensures
        dedup::rows_view(r@) == selected(
            deque_view(*logs),
            opt_expr(*base),
            service::services_view(opts@),
        ),
{
    let ghost lv = deque_view(*logs);
    let ghost sv = service::services_view(opts@);
    let ghost bv = opt_expr(*base);
    let ghost pred = |r: Row| service::service_enabled(sv, r.log.service) && (bv matches Some(e) ==> e.holds(r.log));
    let ghost all = all_rows(lv);
    let mut r: Vec<(usize, LogItem)> = Vec::new();
    let mut i: usize = 0;
    assert(all.take(0).filter(pred) =~= seq![]) by {
        reveal(Seq::filter);
    }
    assert(dedup::rows_view(r@) =~= seq![]);
    while i < logs.len()
        invariant
            i <= logs@.len(),
            lv == deque_view(*logs),
            sv == service::services_view(opts@),
            bv == opt_expr(*base),
            pred == (|r: Row|
                service::service_enabled(sv, r.log.service) && (bv matches Some(e) ==> e.holds(r.log))),
            all == all_rows(lv),
            dedup::rows_view(r@) == all.take(i as int).filter(pred),
        decreases logs@.len() - i,
    {
        let log = &logs[i];
        let ghost before = r@;
        let ghost row = Row { index: i, log: log@ };
        assert(lv[i as int] == log@);
        assert(all[i as int] == row);
        assert(all.take(i + 1).drop_last() =~= all.take(i as int));
        reveal(Seq::filter);
        let keep: bool = is_service_enabled(opts, log.service.as_str()) && match base {
            Some(e) => eval_expr(e, log),
            None => true,
        };
        if keep {
            let copy = log.clone();
            r.push((i, copy));
            assert(dedup::rows_view(r@) =~= dedup::rows_view(before).push(row));
        }
        i += 1;
    }
    assert(all.take(i as int) =~= all);
    r
}

/// Keeps the lines that pass a condition, where it can be tested on all of them.
fn keep_rows(rows: &Vec<(usize, LogItem)>, m: &Modifier, now: u64) -> (r: Option<Vec<(usize, LogItem)>>)
    requires
        condition(m@, now) is Some,
    ensures
        r is Some == step_ready(dedup::rows_view(rows@), m@, now),
        r matches Some(v) ==> dedup::rows_view(v@) == dedup::rows_view(rows@).filter(
            |r: Row| condition(m@, now)->0.has(r.log),
        ),
{
    let ghost k = condition(m@, now)->0;
    let ghost pred = |r: Row| k.has(r.log);
    let ghost all = dedup::rows_view(rows@);
    let mut r: Vec<(usize, LogItem)> = Vec::new();
    let mut i: usize = 0;
    assert(all.take(0).filter(pred) =~= seq![]) by {
        reveal(Seq::filter);
    }
    assert(dedup::rows_view(r@) =~= seq![]);
    while i < rows.len()
        invariant
            i <= rows@.len(),
            condition(m@, now) == Some(k),
            pred == (|r: Row| k.has(r.log)),
            all == dedup::rows_view(rows@),
            forall|j: int| 0 <= j < i ==> k.ready((#[trigger] all[j]).log),
            dedup::rows_view(r@) == all.take(i as int).filter(pred),
        decreases rows@.len() - i,
    {
        let log = &rows[i].1;
        let ghost before = r@;
        let ghost row = Row { index: rows@[i as int].0, log: log@ };
        assert(all[i as int] == row);
        assert(all.take(i + 1).drop_last() =~= all.take(i as int));
        reveal(Seq::filter);
        if !condition_in_range(m, log) {
            return None;
        }
        if passes(m, log, now) {
            let copy = log.clone();
            r.push((rows[i].0, copy));
            assert(dedup::rows_view(r@) =~= dedup::rows_view(before).push(row));
        }
        i += 1;
    }
    assert(all.take(i as int) =~= all);
    Some(r)
}

/// Marks the places around each line; `None` where a place is beyond the machine's numbers.
fn mark_near(rows: &Vec<(usize, LogItem)>, total: usize, before: usize, after: usize) -> (r: Option<Vec<bool>>)
    ensures
        r is Some == forall|i: int|
            0 <= i < rows@.len() ==> (#[trigger] dedup::rows_view(rows@)[i]).index + after <= usize::MAX,
        r matches Some(v) ==> v@.len() == total && forall|k: int|
            0 <= k < total ==> #[trigger] v@[k] == near(dedup::rows_view(rows@), k, before as int, after as int),
{
    let ghost rv = dedup::rows_view(rows@);
    let mut marks: Vec<bool> = Vec::new();
    let mut t: usize = 0;
    while t < total
        invariant
            t <= total,
            marks@.len() == t,
            forall|k: int| 0 <= k < t ==> !#[trigger] marks@[k],
        decreases total - t,
    {
        marks.push(false);
        t += 1;
    }
    let mut i: usize = 0;
    while i < rows.len()
        invariant
            i <= rows@.len(),
            rv == dedup::rows_view(rows@),
            marks@.len() == total,
            forall|j: int| 0 <= j < i ==> (#[trigger] rv[j]).index + after <= usize::MAX,
            forall|k: int|
                0 <= k < total ==> #[trigger] marks@[k] == exists|j: int|
                    0 <= j < i && (#[trigger] rv[j]).index - before <= k <= rv[j].index + after,
        decreases rows@.len() - i,
    {
        let index: usize = rows[i].0;
        assert(rv[i as int].index == index);
        if after > usize::MAX - index {
            return None;
        }
        let start: usize = index.saturating_sub(before);
        let end: usize = index + after;
        let ghost base = marks@;
        let mut k: usize = start;
        while k < total && k <= end
            invariant
                start <= k,
                k <= total || k == start,
                k <= end || k == end + 1 || k == start,
                start == (if before <= index {
                    (index - before) as int
                } else {
                    0
                }),
                end == index + after,
                marks@.len() == total,
                base.len() == total,
                forall|x: int|
                    0 <= x < total ==> #[trigger] marks@[x] == (base[x] || (start <= x < k && x <= end)),
            decreases total - k,
        {
            marks[k] = true;
            k += 1;
        }
        assert forall|x: int| 0 <= x < total implies #[trigger] marks@[x] == exists|j: int|
            0 <= j < i + 1 && (#[trigger] rv[j]).index - before <= x <= rv[j].index + after by {
            let here = index - before <= x <= index + after;
            assert(marks@[x] == (base[x] || here));
            if base[x] {
                let j = choose|j: int|
                    0 <= j < i && (#[trigger] rv[j]).index - before <= x <= rv[j].index + after;
                assert(0 <= j < i + 1);
            }
            if here {
                assert(rv[i as int].index - before <= x <= rv[i as int].index + after);
            }
            if exists|j: int| 0 <= j < i + 1 && (#[trigger] rv[j]).index - before <= x <= rv[j].index + after {
                let j = choose|j: int|
                    0 <= j < i + 1 && (#[trigger] rv[j]).index - before <= x <= rv[j].index + after;
                if j < i {
                    assert(base[x]);
                } else {
                    assert(here);
                }
            }
        }
        i += 1;
    }
    assert forall|k: int| 0 <= k < total implies #[trigger] marks@[k] == near(
        rv,
        k,
        before as int,
        after as int,
    ) by {}
    Some(marks)
}

fn expand_context_deque(
    rows: &Vec<(usize, LogItem)>,
    logs: &VecDeque<LogItem>,
    before: usize,
    after: usize,
    opts: &Vec<ContainerFilterOption>,
) -> (r: Option<Vec<(usize, LogItem)>>)
    ensures
        r is Some == forall|i: int|
            0 <= i < rows@.len() ==> (#[trigger] dedup::rows_view(rows@)[i]).index + after <= usize::MAX,
        r matches Some(v) ==> dedup::rows_view(v@) == with_context(
            dedup::rows_view(rows@),
            deque_view(*logs),
            before as int,
            after as int,
            service::services_view(opts@),
        ),
{
    let ghost rv = dedup::rows_view(rows@);
    let ghost lv = deque_view(*logs);
    let ghost sv = service::services_view(opts@);
    let ghost pred = |r: Row|
        service::service_enabled(sv, r.log.service) && near(rv, r.index as int, before as int, after as int);
    let ghost all = all_rows(lv);
    let marks = match mark_near(rows, logs.len(), before, after) {
        Some(v) => v,
        None => return None,
    };
    let mut r: Vec<(usize, LogItem)> = Vec::new();
    let mut i: usize = 0;
    assert(all.take(0).filter(pred) =~= seq![]) by {
        reveal(Seq::filter);
    }
    assert(dedup::rows_view(r@) =~= seq![]);
    while i < logs.len()
        invariant
            i <= logs@.len(),
            rv == dedup::rows_view(rows@),
            lv == deque_view(*logs),
            sv == service::services_view(opts@),
            pred == (|r: Row|
                service::service_enabled(sv, r.log.service) && near(rv, r.index as int, before as int, after as int)),
            all == all_rows(lv),
            marks@.len() == logs@.len(),
            forall|k: int|
                0 <= k < logs@.len() ==> #[trigger] marks@[k] == near(rv, k, before as int, after as int),
            dedup::rows_view(r@) == all.take(i as int).filter(pred),
        decreases logs@.len() - i,
    {
        let log = &logs[i];
        let ghost prior = r@;
        let ghost row = Row { index: i, log: log@ };
        assert(lv[i as int] == log@);
        assert(all[i as int] == row);
        assert(all.take(i + 1).drop_last() =~= all.take(i as int));
        reveal(Seq::filter);
        if marks[i] && is_service_enabled(opts, log.service.as_str()) {
            let copy = log.clone();
            r.push((i, copy));
            assert(dedup::rows_view(r@) =~= dedup::rows_view(prior).push(row));
        }
        i += 1;
    }
    assert(all.take(i as int) =~= all);
    Some(r)
}

/// Makes a step, where it can be made.
fn make_step(
    rows: Vec<(usize, LogItem)>,
    m: &Modifier,
    logs: &VecDeque<LogItem>,
    opts: &Vec<ContainerFilterOption>,
    now: u64,
) -> (r: Option<Vec<(usize, LogItem)>>)
    ensures
        r is Some == step_ready(dedup::rows_view(rows@), m@, now),
        r matches Some(v) ==> dedup::rows_view(v@) == stepped(
            dedup::rows_view(rows@),
            m@,
            deque_view(*logs),
            service::services_view(opts@),
            now,
        ),
{
    let ghost rv = dedup::rows_view(rows@);
    match m {
        Modifier::Filter(_) | Modifier::Since(_) | Modifier::BeforeTime(_) => keep_rows(&rows, m, now),
        Modifier::Context { before, after } => expand_context_deque(&rows, logs, *before, *after, opts),
        Modifier::BeforeContext(n) => expand_context_deque(&rows, logs, *n, 0, opts),
        Modifier::AfterContext(n) => expand_context_deque(&rows, logs, 0, *n, opts),
        Modifier::First(n) => {
            let mut rows = rows;
            if *n < rows.len() {
                rows.truncate(*n);
                assert(dedup::rows_view(rows@) =~= rv.take(*n as int));
            }
            Some(rows)
        },
        Modifier::Last(n) => {
            let mut rows = rows;
            if *n < rows.len() {
                let at: usize = rows.len() - *n;
                let tail = rows.split_off(at);
                assert(dedup::rows_view(tail@) =~= rv.skip(at as int));
                return Some(tail);
            }
            Some(rows)
        },
        Modifier::Deduplicate(mode) => fold_repeats(&rows, *mode),
    }
}

/// Runs the query, where every step can be made.
pub(crate) fn run_query(
    base: &Option<Expr>,
    pipe: &Vec<Modifier>,
    logs: &VecDeque<LogItem>,
    opts: &Vec<ContainerFilterOption>,
    now: u64,
) -> (r: Option<Vec<(usize, LogItem)>>)
    ensures
        ({
            let lv = deque_view(*logs);
            let sv = service::services_view(opts@);
            let pv = modifiers_view(pipe@);
            let start = selected(
                lv,
                opt_expr(*base),
                sv,
            );
            &&& r is Some == run_ready(start, pv, 0, lv, sv, now)
            &&& r matches Some(v) ==> dedup::rows_view(v@) == run_from(start, pv, 0, lv, sv, now)
        }),
{
    let ghost lv = deque_view(*logs);
    let ghost sv = service::services_view(opts@);
    let ghost pv = modifiers_view(pipe@);
    let mut rows = select_rows(logs, base, opts);
    let ghost start = dedup::rows_view(rows@);
    let mut i: usize = 0;
    while i < pipe.len()
        invariant
            i <= pipe@.len(),
            lv == deque_view(*logs),
            sv == service::services_view(opts@),
            pv == modifiers_view(pipe@),
            start == selected(lv, opt_expr(*base), sv),
            run_ready(start, pv, 0, lv, sv, now) == run_ready(
                dedup::rows_view(rows@),
                pv,
                i as int,
                lv,
                sv,
                now,
            ),
            run_from(start, pv, 0, lv, sv, now) == run_from(dedup::rows_view(rows@), pv, i as int, lv, sv, now),
        decreases pipe@.len() - i,
    {
        assert(pv[i as int] == pipe@[i as int]@);
        match make_step(rows, &pipe[i], logs, opts, now) {
            Some(next) => {
                rows = next;
            },
            None => return None,
        }
        i += 1;
    }
    Some(rows)
}

} // verus!
