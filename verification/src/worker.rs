//! Looking for a text in all lines, beside the viewer's own filter.

use crate::logitem::{LogItem, LogView};
use crate::query::pipeline;
use crate::text::{self, chars_of, has_text, to_lower};
use std::collections::VecDeque;
use vstd::prelude::*;

verus! {

/// A text to look for.
#[derive(Clone, Debug)]
pub struct QueryFilterReq {
    pub query: String,
}

/// The places of the lines that hold it.
#[derive(Clone, Debug)]
pub struct QueryFilterRes {
    pub matched_indices: Vec<usize>,
}

/// What looks for the text.
pub struct QueryFilterWorker;

/// Whether a line, or the name of its service, holds the text in any letter case.
pub open spec fn holds(log: LogView, query: Seq<char>) -> bool {
    text::contains(text::lowercase(log.content), text::lowercase(query)) || text::contains(
        text::lowercase(log.service),
        text::lowercase(query),
    )
}

/// The places among the first `n` lines of those that hold the text.
pub open spec fn holding(logs: Seq<LogView>, query: Seq<char>, n: int) -> Seq<usize>
    decreases n,
{
    if !(0 < n <= logs.len()) {
        seq![]
    } else if holds(logs[n - 1], query) {
        holding(logs, query, n - 1).push((n - 1) as usize)
    } else {
        holding(logs, query, n - 1)
    }
}

impl QueryFilterWorker {
    /// Finds the lines that hold the text.
    pub fn handle(event: &QueryFilterReq, logs: &VecDeque<LogItem>) -> (r: QueryFilterRes)
        ensures
            r.matched_indices@ == holding(
                pipeline::deque_view(*logs),
                event.query@,
                pipeline::deque_view(*logs).len() as int,
            ),
    {
        let query = chars_of(to_lower(event.query.as_str()).as_str());
        let mut found: Vec<usize> = Vec::new();
        let mut i: usize = 0;
        while i < logs.len()
            invariant
                i <= logs@.len(),
                query@ == text::lowercase(event.query@),
                found@ == holding(pipeline::deque_view(*logs), event.query@, i as int),
            decreases logs@.len() - i,
        {
            assert(pipeline::deque_view(*logs)[i as int] == logs@[i as int]@);
            let content = chars_of(to_lower(logs[i].content.as_str()).as_str());
            let service = chars_of(to_lower(logs[i].service.as_str()).as_str());
            if has_text(content.as_slice(), query.as_slice()) || has_text(service.as_slice(), query.as_slice()) {
                found.push(i);
            }
            i += 1;
        }
        QueryFilterRes { matched_indices: found }
    }
}

/// The places found are those of all lines that hold the text, in their text or in the
/// name of their service, in order.
pub proof fn law_all_holding_lines_are_found(logs: Seq<LogView>, query: Seq<char>, n: int)
    requires
        0 <= n <= logs.len(),
        logs.len() <= usize::MAX,
    ensures
        forall|i: int, j: int|
            0 <= i < j < holding(logs, query, n).len() ==> #[trigger] holding(logs, query, n)[i]
                < #[trigger] holding(logs, query, n)[j],
        forall|k: usize|
            holding(logs, query, n).contains(k) <==> k < n && (text::contains(
                text::lowercase((#[trigger] logs[k as int]).content),
                text::lowercase(query),
            ) || text::contains(text::lowercase(logs[k as int].service), text::lowercase(query))),
        forall|i: int| 0 <= i < holding(logs, query, n).len() ==> #[trigger] holding(logs, query, n)[i] < n,
    decreases n,
{
    if n > 0 {
        law_all_holding_lines_are_found(logs, query, n - 1);
        let before = holding(logs, query, n - 1);
        let found = holding(logs, query, n);
        assert forall|k: usize|
            found.contains(k) <==> k < n && (text::contains(
                text::lowercase((#[trigger] logs[k as int]).content),
                text::lowercase(query),
            ) || text::contains(text::lowercase(logs[k as int].service), text::lowercase(query))) by {
            if before.contains(k) {
                let i = choose|i: int| 0 <= i < before.len() && before[i] == k;
                assert(found[i] == k);
            }
            if found.contains(k) && k < n - 1 {
                let i = choose|i: int| 0 <= i < found.len() && found[i] == k;
                assert(before[i] == k);
            }
            if holds(logs[n - 1], query) {
                assert(found[before.len() as int] == (n - 1) as usize);
            } else {
                assert(found == before);
            }
        }
        assert forall|i: int, j: int| 0 <= i < j < found.len() implies #[trigger] found[i] < #[trigger] found[j] by {
            assert(found[i] == before[i]);
            if j < before.len() {
                assert(found[j] == before[j]);
            }
        }
        assert forall|i: int| 0 <= i < found.len() implies #[trigger] found[i] < n by {
            if i < before.len() {
                assert(found[i] == before[i]);
            }
        }
    }
}

} // verus!
