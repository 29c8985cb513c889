//! What folding repeated lines makes of them.

use super::dedup::{self, DedupMode, EntryView, Row};
use vstd::prelude::*;

verus! {

/// The message that a line repeats, without a count before it.
pub open spec fn message_of(row: Row) -> Seq<char> {
    dedup::count_and_message(row.log.content).1
}

/// How many lines a line stands for.
pub open spec fn count_of(row: Row) -> int {
    dedup::count_and_message(row.log.content).0
}

/// How many lines of a service with a message the entries stand for.
pub open spec fn counted(entries: Seq<EntryView>, service: Seq<char>, message: Seq<char>) -> int
    decreases entries.len(),
{
    if entries.len() == 0 {
        0
    } else {
        counted(entries.drop_last(), service, message) + (if entries.last().log.service == service
            && entries.last().message == message {
            entries.last().count
        } else {
            0
        })
    }
}

/// How many lines of a service with a message the first `n` lines stand for.
pub open spec fn counted_rows(rows: Seq<Row>, n: int, service: Seq<char>, message: Seq<char>) -> int
    decreases n,
{
    if !(0 < n <= rows.len()) {
        0
    } else {
        counted_rows(rows, n - 1, service, message) + (if rows[n - 1].log.service == service && message_of(rows[n - 1])
            == message {
            count_of(rows[n - 1])
        } else {
            0
        })
    }
}

proof fn lemma_counted_update(entries: Seq<EntryView>, k: int, e: EntryView, service: Seq<char>, message: Seq<char>)
    requires
        0 <= k < entries.len(),
        e.log == entries[k].log,
        e.message == entries[k].message,
    ensures
        counted(entries.update(k, e), service, message) == counted(entries, service, message) + (
        if e.log.service == service && e.message == message {
            e.count - entries[k].count
        } else {
            0
        }),
    decreases entries.len(),
{
    let u = entries.update(k, e);
    if k == entries.len() - 1 {
        assert(u.drop_last() =~= entries.drop_last());
    } else {
        lemma_counted_update(entries.drop_last(), k, e, service, message);
        assert(u.drop_last() =~= entries.drop_last().update(k, e));
    }
}

/// An entry that a line may be folded into has the line's service and message.
proof fn lemma_candidate(entries: Seq<EntryView>, mode: DedupMode, service: Seq<char>, message: Seq<char>)
    ensures
        dedup::candidate(entries, mode, service, message) matches Some(k) ==> 0 <= k < entries.len()
            && entries[k].log.service == service && entries[k].message == message,
{
    dedup::lemma_last_same(entries, service, message, entries.len() as int);
}

/// Every line is counted where its own service and its own message are: for each
/// service and message, the entries count as many lines as there were.
pub proof fn law_fold_counts_each(rows: Seq<Row>, n: int, mode: DedupMode, service: Seq<char>, message: Seq<char>)
    requires
        0 <= n <= rows.len(),
    ensures
        counted(dedup::entries_of(rows, n, mode), service, message) == counted_rows(rows, n, service, message),
    decreases n,
{
    if n > 0 {
        law_fold_counts_each(rows, n - 1, mode, service, message);
        let before = dedup::entries_of(rows, n - 1, mode);
        let row = rows[n - 1];
        let after = dedup::with_row(before, row, mode);
        lemma_candidate(before, mode, row.log.service, message_of(row));
        match dedup::candidate(before, mode, row.log.service, message_of(row)) {
            Some(k) => {
                if dedup::within(mode, before[k].last_secs, dedup::secs_of(mode, row.log)) {
                    lemma_counted_update(before, k, after[k], service, message);
                } else {
                    assert(after.drop_last() =~= before);
                }
            },
            None => {
                assert(after.drop_last() =~= before);
            },
        }
    }
}

/// Whether an entry was begun by a line: it has the line's place and all that the line holds.
pub open spec fn begun_by(e: EntryView, row: Row) -> bool {
    e.index == row.index && e.log == row.log && e.message == message_of(row)
}

/// Each entry was begun by a line, and stays at its place and with what it holds.
pub proof fn law_entry_is_first_line(rows: Seq<Row>, n: int, mode: DedupMode)
    requires
        0 <= n <= rows.len(),
    ensures
        forall|i: int|
            0 <= i < dedup::entries_of(rows, n, mode).len() ==> exists|k: int|
                0 <= k < n && begun_by(#[trigger] dedup::entries_of(rows, n, mode)[i], #[trigger] rows[k]),
    decreases n,
{
    if n > 0 {
        law_entry_is_first_line(rows, n - 1, mode);
        let before = dedup::entries_of(rows, n - 1, mode);
        let row = rows[n - 1];
        let after = dedup::entries_of(rows, n, mode);
        lemma_candidate(before, mode, row.log.service, message_of(row));
        assert forall|i: int| 0 <= i < after.len() implies exists|k: int|
            0 <= k < n && begun_by(#[trigger] after[i], #[trigger] rows[k]) by {
            if i < before.len() {
                let k = choose|k: int| 0 <= k < n - 1 && begun_by(before[i], #[trigger] rows[k]);
                assert(begun_by(after[i], rows[k]));
            } else {
                assert(begun_by(after[i], rows[n - 1]));
            }
        }
    }
}

/// Whether two lines are of the same service and repeat the same message.
pub open spec fn alike(a: Row, b: Row) -> bool {
    a.log.service == b.log.service && message_of(a) == message_of(b)
}

/// The last of the first `n` lines that is like the given one.
pub open spec fn last_alike(rows: Seq<Row>, n: int, row: Row) -> Option<int>
    decreases n,
{
    if !(0 < n <= rows.len()) {
        None
    } else if alike(rows[n - 1], row) {
        Some(n - 1)
    } else {
        last_alike(rows, n - 1, row)
    }
}

/// When only neighbours are folded, a line begins an entry of its own exactly where
/// it is not like the line just before it.
pub proof fn law_neighbours_fold(rows: Seq<Row>, n: int)
    requires
        0 <= n < rows.len(),
    ensures
        dedup::entries_of(rows, n + 1, DedupMode::Consecutive).len() == dedup::entries_of(
            rows,
            n,
            DedupMode::Consecutive,
        ).len() + (if n > 0 && alike(rows[n - 1], rows[n]) {
            0int
        } else {
            1int
        }),
{
    lemma_last_entry(rows, n);
}

/// When only neighbours are folded, the last entry is that of the last line.
proof fn lemma_last_entry(rows: Seq<Row>, n: int)
    requires
        0 <= n <= rows.len(),
    ensures
        n > 0 ==> {
            let e = dedup::entries_of(rows, n, DedupMode::Consecutive);
            &&& e.len() > 0
            &&& e.last().log.service == rows[n - 1].log.service
            &&& e.last().message == message_of(rows[n - 1])
        },
{
    if n > 0 {
        let before = dedup::entries_of(rows, n - 1, DedupMode::Consecutive);
        let row = rows[n - 1];
        lemma_candidate(before, DedupMode::Consecutive, row.log.service, message_of(row));
    }
}

/// The last entry that is like a line, where entries are looked for all the way back,
/// belongs to the last line like it.
proof fn lemma_last_like(rows: Seq<Row>, n: int, mode: DedupMode, row: Row)
    requires
        0 <= n <= rows.len(),
        !(mode is Consecutive),
        mode is Window ==> forall|k: int| 0 <= k < n ==> dedup::secs_of(mode, (#[trigger] rows[k]).log) is Some,
    ensures
        ({
            let e = dedup::entries_of(rows, n, mode);
            let found = dedup::last_same(e, row.log.service, message_of(row), e.len() as int);
            &&& found is Some == last_alike(rows, n, row) is Some
            &&& found matches Some(k) ==> 0 <= k < e.len() && (mode is Window ==> e[k].last_secs == dedup::secs_of(
                mode,
                rows[last_alike(rows, n, row)->0].log,
            ))
        }),
    decreases n,
{
    if n > 0 {
        let before = dedup::entries_of(rows, n - 1, mode);
        let after = dedup::entries_of(rows, n, mode);
        let now = rows[n - 1];
        let (s, m) = (row.log.service, message_of(row));
        lemma_last_like(rows, n - 1, mode, row);
        lemma_last_like(rows, n - 1, mode, now);
        dedup::lemma_last_same(before, s, m, before.len() as int);
        dedup::lemma_last_same(after, s, m, after.len() as int);
        dedup::lemma_last_same(before, now.log.service, message_of(now), before.len() as int);
        let found = dedup::last_same(before, now.log.service, message_of(now), before.len() as int);
        let joins = found matches Some(k) && dedup::within(mode, before[k].last_secs, dedup::secs_of(mode, now.log));
        if joins {
            lemma_same_update(before, found->0, after[found->0], s, m, before.len() as int);
        } else {
            assert(after.len() == before.len() + 1);
            lemma_same_push(before, after.last(), s, m, before.len() as int);
        }
    }
}

proof fn lemma_same_update(entries: Seq<EntryView>, k: int, e: EntryView, s: Seq<char>, m: Seq<char>, n: int)
    requires
        0 <= k < entries.len(),
        0 <= n <= entries.len(),
        e.log == entries[k].log,
        e.message == entries[k].message,
    ensures
        dedup::last_same(entries.update(k, e), s, m, n) == dedup::last_same(entries, s, m, n),
    decreases n,
{
    if n > 0 {
        lemma_same_update(entries, k, e, s, m, n - 1);
    }
}

proof fn lemma_same_push(entries: Seq<EntryView>, e: EntryView, s: Seq<char>, m: Seq<char>, n: int)
    requires
        0 <= n <= entries.len(),
    ensures
        dedup::last_same(entries.push(e), s, m, n) == dedup::last_same(entries, s, m, n),
    decreases n,
{
    if n > 0 {
        lemma_same_push(entries, e, s, m, n - 1);
    }
}

/// When all repetitions are folded, a line begins an entry of its own exactly where
/// no line before it is like it.
pub proof fn law_all_repeats_fold(rows: Seq<Row>, n: int)
    requires
        0 <= n < rows.len(),
    ensures
        dedup::entries_of(rows, n + 1, DedupMode::All).len() == dedup::entries_of(rows, n, DedupMode::All).len() + (
        if last_alike(rows, n, rows[n]) is Some {
            0int
        } else {
            1int
        }),
{
    lemma_last_like(rows, n, DedupMode::All, rows[n]);
}

/// Within a window, where all lines are dated, a line begins an entry of its own
/// exactly where no line before it is like it or the last one that is came longer
/// before it than the window is wide.
pub proof fn law_window_folds(rows: Seq<Row>, n: int, mode: DedupMode)
    requires
        0 <= n < rows.len(),
        mode is Window,
        forall|k: int| 0 <= k <= n ==> dedup::secs_of(mode, (#[trigger] rows[k]).log) is Some,
    ensures
        dedup::entries_of(rows, n + 1, mode).len() == dedup::entries_of(rows, n, mode).len() + (match last_alike(
            rows,
            n,
            rows[n],
        ) {
            Some(k) => if dedup::secs_of(mode, rows[n].log)->0 - dedup::secs_of(mode, rows[k].log)->0
                <= mode->Window_0.secs {
                0int
            } else {
                1int
            },
            None => 1int,
        }),
{
    lemma_last_like(rows, n, mode, rows[n]);
    lemma_last_alike(rows, n, rows[n]);
}

proof fn lemma_last_alike(rows: Seq<Row>, n: int, row: Row)
    ensures
        last_alike(rows, n, row) matches Some(k) ==> 0 <= k < n && alike(rows[k], row) && forall|j: int|
            k < j < n ==> !alike(#[trigger] rows[j], row),
        last_alike(rows, n, row) is None && n <= rows.len() ==> forall|j: int|
            0 <= j < n ==> !alike(#[trigger] rows[j], row),
    decreases n,
{
    if 0 < n <= rows.len() {
        lemma_last_alike(rows, n - 1, row);
    }
}

/// When all repetitions are folded, no two entries have the same service and message.
pub proof fn law_folded_lines_differ(rows: Seq<Row>, n: int, i: int, j: int)
    requires
        0 <= n <= rows.len(),
        0 <= i < j < dedup::entries_of(rows, n, DedupMode::All).len(),
    ensures
        ({
            let e = dedup::entries_of(rows, n, DedupMode::All);
            e[i].log.service != e[j].log.service || e[i].message != e[j].message
        }),
{
    dedup::law_fold_all_leaves_no_repeats(rows, n);
}

/// A line that is shown for an entry stands at the entry's place, with its service,
/// level and date; one that stands for itself alone is shown as it is.
pub proof fn law_shown_entry(rows: Seq<Row>, mode: DedupMode, i: int)
    requires
        0 <= i < dedup::deduplicated(rows, mode).len(),
    ensures
        dedup::deduplicated(rows, mode).len() == dedup::entries_of(rows, rows.len() as int, mode).len(),
        ({
            let e = dedup::entries_of(rows, rows.len() as int, mode)[i];
            let r = dedup::deduplicated(rows, mode)[i];
            &&& r.index == e.index
            &&& r.log.service == e.log.service
            &&& r.log.level == e.log.level
            &&& r.log.timestamp == e.log.timestamp
            &&& r.log.is_system == e.log.is_system
            &&& e.count <= 1 ==> r.log == e.log
        }),
{
}

/// Lines of which no two are alike, and none of which stands for more than itself,
/// are left as they are.
pub proof fn law_different_lines_stay(rows: Seq<Row>, mode: DedupMode)
    requires
        forall|i: int, j: int| 0 <= i < j < rows.len() ==> !alike(#[trigger] rows[i], #[trigger] rows[j]),
        forall|i: int| 0 <= i < rows.len() ==> count_of(#[trigger] rows[i]) <= 1,
    ensures
        dedup::deduplicated(rows, mode) == rows,
{
    lemma_different(rows, rows.len() as int, mode);
    assert(dedup::deduplicated(rows, mode) =~= rows);
}

proof fn lemma_different(rows: Seq<Row>, n: int, mode: DedupMode)
    requires
        0 <= n <= rows.len(),
        forall|i: int, j: int| 0 <= i < j < rows.len() ==> !alike(#[trigger] rows[i], #[trigger] rows[j]),
        forall|i: int| 0 <= i < rows.len() ==> count_of(#[trigger] rows[i]) <= 1,
    ensures
        dedup::entries_of(rows, n, mode).len() == n,
        forall|i: int|
            0 <= i < n ==> begun_by(#[trigger] dedup::entries_of(rows, n, mode)[i], rows[i])
                && dedup::entries_of(rows, n, mode)[i].count <= 1,
    decreases n,
{
    if n > 0 {
        lemma_different(rows, n - 1, mode);
        let before = dedup::entries_of(rows, n - 1, mode);
        let row = rows[n - 1];
        lemma_candidate(before, mode, row.log.service, message_of(row));
        assert(dedup::candidate(before, mode, row.log.service, message_of(row)) is None) by {
            if let Some(k) = dedup::candidate(before, mode, row.log.service, message_of(row)) {
                assert(begun_by(before[k], rows[k]));
                assert(alike(rows[k], rows[n - 1]));
            }
        }
        let after = dedup::entries_of(rows, n, mode);
        assert forall|i: int| 0 <= i < n implies begun_by(#[trigger] after[i], rows[i]) && after[i].count <= 1 by {
            if i < n - 1 {
                assert(after[i] == before[i]);
            } else {
                assert(count_of(rows[n - 1]) <= 1);
            }
        }
    }
}

} // verus!
