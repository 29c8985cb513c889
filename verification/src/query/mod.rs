//! The query language: what a query is, how it is read, and what it selects.

pub mod dedup;
pub mod fault;
pub mod folding;
pub mod glob;
pub mod grammar;
pub mod keywords;
pub mod laws;
pub mod lexer;
pub mod matcher;
pub mod parser;
pub mod pipeline;
pub mod refusals;
pub mod stages;
pub mod steps;
pub mod terms;
pub mod time;

pub use self::dedup::DedupMode;
pub use self::fault::QueryError;
pub use self::matcher::{is_quote_char, Expr, Matcher};
pub use self::pipeline::Modifier;
pub use self::time::{parse_duration, parse_timestamp_secs, Duration};

use self::dedup::Row;
use self::fault::Fault;
use self::matcher::{eval_expr, ExprView};
use self::pipeline::{condition_in_range, passes, run_query, ModifierView};
use self::stages::{parse_modifier_stage, split_pipeline_stages, stage_in_range};
use crate::logitem::{self, LogItem, LogView};
use crate::service::{self, ContainerFilterOption, ServiceView};
use crate::text::{self, chars_of, strip, Class};
use std::collections::VecDeque;
use vstd::prelude::*;

verus! {

/// A filter and the steps that follow it.
#[derive(Debug, PartialEq)]
pub struct Query {
    pub base: Option<Expr>,
    pub pipeline: Vec<Modifier>,
}

/// What a query holds.
#[verifier::ext_equal]
pub struct QueryView {
    pub base: Option<ExprView>,
    pub pipeline: Seq<ModifierView>,
}

impl View for Query {
    type V = QueryView;

    open spec fn view(&self) -> QueryView {
        QueryView { base: pipeline::opt_expr(self.base), pipeline: pipeline::modifiers_view(self.pipeline@) }
    }
}

impl Clone for Query {
    fn clone(&self) -> (r: Query)
        ensures
            r@ == self@,
    {
        let base = match &self.base {
            Some(e) => Some(e.clone()),
            None => None,
        };
        let ghost all = pipeline::modifiers_view(self.pipeline@);
        let mut steps: Vec<Modifier> = Vec::new();
        let mut i: usize = 0;
        assert(pipeline::modifiers_view(steps@) =~= all.take(0));
        while i < self.pipeline.len()
            invariant
                i <= self.pipeline@.len(),
                all == pipeline::modifiers_view(self.pipeline@),
                pipeline::modifiers_view(steps@) == all.take(i as int),
            decreases self.pipeline@.len() - i,
        {
            let ghost before = steps@;
            let m = self.pipeline[i].clone();
            steps.push(m);
            assert(pipeline::modifiers_view(steps@) =~= pipeline::modifiers_view(before).push(m@));
            assert(all[i as int] == self.pipeline@[i as int]@);
            i += 1;
            assert(pipeline::modifiers_view(steps@) =~= all.take(i as int));
        }
        assert(all.take(i as int) =~= all);
        Query { base, pipeline: steps }
    }
}

/// The query that the stages from `i` on make, behind what was read before
/// them. A filter in the first stage is the base; every other step goes into the pipeline.
pub open spec fn query_from(stages: Seq<Seq<char>>, i: int, q: QueryView) -> Result<QueryView, Fault>
    decreases stages.len() - i,
{
    if !(0 <= i < stages.len()) {
        Ok(q)
    } else {
        let s = text::trimmed(stages[i]);
        if s.len() == 0 {
            query_from(stages, i + 1, q)
        } else {
            match stages::modifier_of(s) {
                Err(e) => Err(e),
                Ok(None) => query_from(stages, i + 1, q),
                Ok(Some(m)) => if i == 0 && m is Filter {
                    query_from(stages, i + 1, QueryView { base: Some(m->Filter_0), ..q })
                } else {
                    query_from(stages, i + 1, QueryView { pipeline: q.pipeline.push(m), ..q })
                },
            }
        }
    }
}

/// Whether the durations are in range in every stage from `i` on that is read.
pub open spec fn stages_fit(stages: Seq<Seq<char>>, i: int) -> bool
    decreases stages.len() - i,
{
    if !(0 <= i < stages.len()) {
        true
    } else {
        let s = text::trimmed(stages[i]);
        if s.len() == 0 {
            stages_fit(stages, i + 1)
        } else {
            stages::stage_fits(s) && (stages::modifier_of(s) is Ok ==> stages_fit(stages, i + 1))
        }
    }
}

/// The query that a text stands for.
pub open spec fn query_of(input: Seq<char>) -> Result<QueryView, Fault> {
    query_from(
        stages::stages_of(text::trimmed(input)),
        0,
        QueryView { base: None, pipeline: seq![] },
    )
}

/// Whether the durations of the query are in range.
pub open spec fn query_fits(input: Seq<char>) -> bool {
    stages_fit(stages::stages_of(text::trimmed(input)), 0)
}

/// What was read agrees with what stands there.
pub open spec fn query_agrees(r: Result<Query, QueryError>, p: Result<QueryView, Fault>) -> bool {
    match r {
        Ok(q) => p == Ok::<QueryView, Fault>(q@),
        Err(e) => p == Err::<QueryView, Fault>(e@),
    }
}

impl QueryView {
    /// Whether the steps from `i` on let a line through on its own: only the
    /// conditions on single lines count.
    pub open spec fn lets_through(self, i: int, log: LogView, now: u64) -> bool
        decreases self.pipeline.len() - i,
    {
        if 0 <= i < self.pipeline.len() {
            (pipeline::condition(self.pipeline[i], now) matches Some(k) ==> k.has(log)) && self.lets_through(
                i + 1,
                log,
                now,
            )
        } else {
            true
        }
    }

    /// Whether a line passes the filter and every condition of the pipeline.
    pub open spec fn accepts(self, log: LogView, now: u64) -> bool {
        (self.base matches Some(e) ==> e.holds(log)) && self.lets_through(0, log, now)
    }

    /// Whether every condition from `i` on that is tested can be tested.
    pub open spec fn testable_from(self, i: int, log: LogView, now: u64) -> bool
        decreases self.pipeline.len() - i,
    {
        if 0 <= i < self.pipeline.len() {
            match pipeline::condition(self.pipeline[i], now) {
                Some(k) => k.ready(log) && (k.has(log) ==> self.testable_from(i + 1, log, now)),
                None => self.testable_from(i + 1, log, now),
            }
        } else {
            true
        }
    }

    pub open spec fn testable(self, log: LogView, now: u64) -> bool {
        (self.base matches Some(e) ==> e.holds(log)) ==> self.testable_from(0, log, now)
    }

    /// Whether a step looks at more than one line.
    pub open spec fn streams(self) -> bool {
        exists|i: int| 0 <= i < self.pipeline.len() && pipeline::condition(#[trigger] self.pipeline[i], 0) is None
    }

    pub open spec fn dedups(self) -> bool {
        exists|i: int| 0 <= i < self.pipeline.len() && (#[trigger] self.pipeline[i]) is Deduplicate
    }

    /// The lines that the query selects, in order.
    pub open spec fn result(self, logs: Seq<LogView>, opts: Seq<ServiceView>, now: u64) -> Seq<Row> {
        pipeline::run_from(pipeline::selected(logs, self.base, opts), self.pipeline, 0, logs, opts, now)
    }

    /// Whether every step of the query can be made on these lines.
    pub open spec fn ready(self, logs: Seq<LogView>, opts: Seq<ServiceView>, now: u64) -> bool {
        pipeline::run_ready(pipeline::selected(logs, self.base, opts), self.pipeline, 0, logs, opts, now)
    }
}

/// The places of the lines.
pub open spec fn indices(rows: Seq<Row>) -> Seq<usize> {
    rows.map_values(|r: Row| r.index)
}

/// The lines themselves.
pub open spec fn row_logs(rows: Seq<Row>) -> Seq<LogView> {
    rows.map_values(|r: Row| r.log)
}

/// What was selected: the places, and the lines where they are not those of the log.
pub open spec fn selection(
    q: QueryView,
    logs: Seq<LogView>,
    opts: Seq<ServiceView>,
    now: u64,
) -> (Seq<usize>, Option<Seq<LogView>>) {
    let rows = q.result(logs, opts, now);
    (
        indices(rows),
        if q.dedups() {
            Some(row_logs(rows))
        } else {
            None
        },
    )
}

/// What an optional list of lines holds.
pub open spec fn opt_logs(o: Option<Vec<LogItem>>) -> Option<Seq<LogView>> {
    match o {
        Some(v) => Some(logitem::logs_view(v@)),
        None => None,
    }
}

fn split_rows(rows: Vec<(usize, LogItem)>) -> (r: (Vec<usize>, Vec<LogItem>))
    ensures
        r.0@ == indices(dedup::rows_view(rows@)),
        logitem::logs_view(r.1@) == row_logs(dedup::rows_view(rows@)),
{
    let ghost rv = dedup::rows_view(rows@);
    let mut places: Vec<usize> = Vec::new();
    let mut logs: Vec<LogItem> = Vec::new();
    let mut i: usize = 0;
    while i < rows.len()
        invariant
            i <= rows@.len(),
            rv == dedup::rows_view(rows@),
            places@ == indices(rv).take(i as int),
            logitem::logs_view(logs@) == row_logs(rv).take(i as int),
        decreases rows@.len() - i,
    {
        let ghost before = logs@;
        places.push(rows[i].0);
        let copy = rows[i].1.clone();
        assert(rv[i as int] == (Row { index: rows@[i as int].0, log: copy@ }));
        logs.push(copy);
        assert(logitem::logs_view(logs@) =~= logitem::logs_view(before).push(rv[i as int].log));
        i += 1;
        assert(places@ =~= indices(rv).take(i as int));
        assert(logitem::logs_view(logs@) =~= row_logs(rv).take(i as int));
    }
    assert(places@ =~= indices(rv));
    assert(logitem::logs_view(logs@) =~= row_logs(rv));
    (places, logs)
}

impl Query {
    /// Reads a query.
    pub fn parse(input: &str) -> (r: Result<Query, QueryError>)
        requires
            query_fits(input@),
        ensures
            query_agrees(r, query_of(input@)),
    {
        let v = chars_of(input);
        let all = split_pipeline_stages(strip(v.as_slice(), Class::Space));
        let ghost views = stages::texts_view(all@);
        let mut base: Option<Expr> = None;
        let mut pipe: Vec<Modifier> = Vec::new();
        let mut i: usize = 0;
        assert(pipeline::modifiers_view(pipe@) =~= seq![]);
        while i < all.len()
            invariant
                i <= all@.len(),
                views == stages::texts_view(all@),
                stages_fit(views, i as int),
                query_of(input@) == query_from(
                    views,
                    i as int,
                    QueryView { base: pipeline::opt_expr(base), pipeline: pipeline::modifiers_view(pipe@) },
                ),
            decreases all@.len() - i,
        {
            assert(views[i as int] == all@[i as int]@);
            let s = strip(all[i].as_slice(), Class::Space);
            let ghost before = pipe@;
            if s.len() > 0 {
                match parse_modifier_stage(s) {
                    Err(e) => return Err(e),
                    Ok(None) => {},
                    Ok(Some(m)) => {
                        let ghost mv = m@;
                        match m {
                            Modifier::Filter(e) => {
                                if i == 0 {
                                    base = Some(e);
                                } else {
                                    pipe.push(Modifier::Filter(e));
                                    assert(pipeline::modifiers_view(pipe@) =~= pipeline::modifiers_view(before).push(
                                        mv,
                                    ));
                                }
                            },
                            other => {
                                pipe.push(other);
                                assert(pipeline::modifiers_view(pipe@) =~= pipeline::modifiers_view(before).push(mv));
                            },
                        }
                    },
                }
            }
            i += 1;
        }
        Ok(Query { base, pipeline: pipe })
    }

    /// Reads a query whose durations are in range.
    pub fn try_parse(input: &str) -> (r: Option<Result<Query, QueryError>>)
        ensures
            r is Some == query_fits(input@),
            r matches Some(q) ==> query_agrees(q, query_of(input@)),
    {
        let v = chars_of(input);
        let all = split_pipeline_stages(strip(v.as_slice(), Class::Space));
        let ghost views = stages::texts_view(all@);
        let mut i: usize = 0;
        let mut wrong: bool = false;
        while i < all.len() && !wrong
            invariant
                i <= all@.len(),
                views == stages::texts_view(all@),
                wrong ==> query_fits(input@),
                !wrong ==> query_fits(input@) == stages_fit(views, i as int),
            decreases all@.len() - i,
        {
            assert(views[i as int] == all@[i as int]@);
            let s = strip(all[i].as_slice(), Class::Space);
            if s.len() > 0 {
                if !stage_in_range(s) {
                    return None;
                }
                wrong = parse_modifier_stage(s).is_err();
            }
            i += 1;
        }
        Some(Query::parse(input))
    }

    /// Whether a line passes the filter and the conditions of the pipeline.
    pub fn matches(&self, log: &LogItem, reference_now_secs: u64) -> (r: bool)
        requires
            self@.testable(log@, reference_now_secs),
        ensures
            r == self@.accepts(log@, reference_now_secs),
    {
        match &self.base {
            Some(e) => {
                if !eval_expr(e, log) {
                    return false;
                }
            },
            None => {},
        }
        let mut i: usize = 0;
        while i < self.pipeline.len()
            invariant
                i <= self.pipeline@.len(),
                self@.testable_from(i as int, log@, reference_now_secs),
                self@.accepts(log@, reference_now_secs) == self@.lets_through(i as int, log@, reference_now_secs),
            decreases self.pipeline@.len() - i,
        {
            assert(self@.pipeline[i as int] == self.pipeline@[i as int]@);
            if !passes(&self.pipeline[i], log, reference_now_secs) {
                return false;
            }
            i += 1;
        }
        true
    }

    /// `matches`, where every condition can be tested.
    pub fn try_matches(&self, log: &LogItem, reference_now_secs: u64) -> (r: Option<bool>)
        ensures
            r is Some == self@.testable(log@, reference_now_secs),
            r matches Some(b) ==> b == self@.accepts(log@, reference_now_secs),
    {
        match &self.base {
            Some(e) => {
                if !eval_expr(e, log) {
                    return Some(false);
                }
            },
            None => {},
        }
        let mut i: usize = 0;
        let mut passed: bool = true;
        while i < self.pipeline.len() && passed
            invariant
                i <= self.pipeline@.len(),
                self@.base matches Some(e) ==> e.holds(log@),
                passed ==> self@.testable(log@, reference_now_secs) == self@.testable_from(
                    i as int,
                    log@,
                    reference_now_secs,
                ),
                !passed ==> self@.testable(log@, reference_now_secs),
            decreases self.pipeline@.len() - i,
        {
            let m = &self.pipeline[i];
            assert(self@.pipeline[i as int] == m@);
            if !condition_in_range(m, log) {
                return None;
            }
            passed = passes(m, log, reference_now_secs);
            i += 1;
        }
        Some(self.matches(log, reference_now_secs))
    }

    /// Whether a step looks at more than one line.
    pub fn has_stream_modifiers(&self) -> (r: bool)
        ensures
            r == self@.streams(),
    {
        let mut i: usize = 0;
        while i < self.pipeline.len()
            invariant
                i <= self.pipeline@.len(),
                forall|j: int| 0 <= j < i ==> pipeline::condition(#[trigger] self@.pipeline[j], 0) is Some,
            decreases self.pipeline@.len() - i,
        {
            assert(self@.pipeline[i as int] == self.pipeline@[i as int]@);
            match &self.pipeline[i] {
                Modifier::Filter(_) | Modifier::Since(_) | Modifier::BeforeTime(_) => {},
                _ => return true,
            }
            i += 1;
        }
        false
    }

    fn has_dedup(&self) -> (r: bool)
        ensures
            r == self@.dedups(),
    {
        let mut i: usize = 0;
        while i < self.pipeline.len()
            invariant
                i <= self.pipeline@.len(),
                forall|j: int| 0 <= j < i ==> !((#[trigger] self@.pipeline[j]) is Deduplicate),
            decreases self.pipeline@.len() - i,
        {
            assert(self@.pipeline[i as int] == self.pipeline@[i as int]@);
            if let Modifier::Deduplicate(_) = &self.pipeline[i] {
                return true;
            }
            i += 1;
        }
        false
    }

    /// Selects lines: their places and, where lines were folded, the lines to show.
    pub fn execute_on_deque(
        &self,
        logs: &VecDeque<LogItem>,
        options: &Vec<ContainerFilterOption>,
        reference_now_secs: u64,
    ) -> (r: (Vec<usize>, Option<Vec<LogItem>>))
        requires
            self@.ready(pipeline::deque_view(*logs), service::services_view(options@), reference_now_secs),
        ensures
            (r.0@, opt_logs(r.1)) == selection(
                self@,
                pipeline::deque_view(*logs),
                service::services_view(options@),
                reference_now_secs,
            ),
    {
        match run_query(&self.base, &self.pipeline, logs, options, reference_now_secs) {
            Some(rows) => {
                let (places, items) = split_rows(rows);
                if self.has_dedup() {
                    (places, Some(items))
                } else {
                    (places, None)
                }
            },
            None => (Vec::new(), None),
        }
    }

    /// `execute_on_deque`, where every step can be made.
    pub fn try_execute(
        &self,
        logs: &VecDeque<LogItem>,
        options: &Vec<ContainerFilterOption>,
        reference_now_secs: u64,
    ) -> (r: Option<(Vec<usize>, Option<Vec<LogItem>>)>)
        ensures
            r is Some == self@.ready(
                pipeline::deque_view(*logs),
                service::services_view(options@),
                reference_now_secs,
            ),
            r matches Some(p) ==> (p.0@, opt_logs(p.1)) == selection(
                self@,
                pipeline::deque_view(*logs),
                service::services_view(options@),
                reference_now_secs,
            ),
    {
        if self.can_execute(logs, options, reference_now_secs) {
            Some(self.execute_on_deque(logs, options, reference_now_secs))
        } else {
            None
        }
    }

    /// Whether every step can be made.
    pub fn can_execute(
        &self,
        logs: &VecDeque<LogItem>,
        options: &Vec<ContainerFilterOption>,
        reference_now_secs: u64,
    ) -> (r: bool)
        ensures
            r == self@.ready(
                pipeline::deque_view(*logs),
                service::services_view(options@),
                reference_now_secs,
            ),
    {
        run_query(&self.base, &self.pipeline, logs, options, reference_now_secs).is_some()
    }
}

} // verus!
