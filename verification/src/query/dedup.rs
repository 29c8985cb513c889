//! Folding repeated lines into one line with a count.

use super::time::{self, parse_timestamp_secs, timestamp_in_range, Duration};
use crate::ansi::{self, ansi_readable};
use crate::logitem::{copy_opt, LogItem, LogView};
use crate::numbers::{self, decimal_of, parse_usize};
use crate::text::{self, chars_of, find_text, same_str, scan_forward, skip_start, string_of, strip, Class};
use vstd::prelude::*;
use vstd::slice::slice_subrange;

verus! {

/// Which repetitions are folded: those that follow each other, all, or those
/// that come within a span of time of the last.
#[derive(Debug, Clone, Copy, PartialEq, Eq, Structural)]
pub enum DedupMode {
    Consecutive,
    All,
    Window(Duration),
}

/// A line that a query works on, with its place among all lines.
#[verifier::ext_equal]
pub struct Row {
    pub index: usize,
    pub log: LogView,
}

/// What each line of a list holds.
pub open spec fn rows_view(v: Seq<(usize, LogItem)>) -> Seq<Row> {
    v.map_values(|p: (usize, LogItem)| Row { index: p.0, log: p.1@ })
}

/// The count that a text of the form `3x` gives.
pub open spec fn times(s: Seq<char>) -> Option<int> {
    if s.len() > 0 && (s.last() == 'x' || s.last() == 'X') {
        numbers::read_usize(s.drop_last())
    } else {
        None
    }
}

/// The text in front of the first separator.
pub open spec fn before_mark(t: Seq<char>, mark: Seq<char>) -> Option<Seq<char>> {
    match text::find(t, mark) {
        Some(d) => Some(text::trimmed(t.take(d))),
        None => None,
    }
}

/// Whether the count can be taken off the line: it does not stand before a long dash.
pub open spec fn count_readable(content: Seq<char>) -> bool {
    before_mark(text::trim_start(content, Class::Space), " — "@) matches Some(p) ==> times(p) is None
}

/// The text between the brackets that a line begins with, and the place behind them.
pub open spec fn bracketed(t: Seq<char>) -> Option<(Seq<char>, int)> {
    let close = text::run_end(t, 0, Class::Not(']'));
    if t.len() > 0 && t[0] == '[' && 0 < close < t.len() {
        Some((t.subrange(1, close), close + 1))
    } else {
        None
    }
}

/// How many lines a line stands for, and their message: `3x - text` and
/// `[3x] text` stand for three, any other line for itself.
pub open spec fn count_and_message(content: Seq<char>) -> (int, Seq<char>) {
    let t = text::trim_start(content, Class::Space);
    let dashed = if text::find(t, " — "@) is None {
        match before_mark(t, " - "@) {
            Some(p) => times(p),
            None => None,
        }
    } else {
        None
    };
    match dashed {
        Some(n) => (n, text::trim_start(t.skip(text::find(t, " - "@)->0 + 3), Class::Space)),
        None => match bracketed(t) {
            Some((inner, end)) => match times(inner) {
                Some(n) => (n, text::trim_start(t.skip(end), Class::Space)),
                None => (1, content),
            },
            None => (1, content),
        },
    }
}

fn read_times(s: &[char]) -> (r: Option<usize>)
    ensures
        r matches Some(n) ==> times(s@) == Some(n as int),
        r is None ==> times(s@) is None,
{
    if s.len() > 0 && (s[s.len() - 1] == 'x' || s[s.len() - 1] == 'X') {
        let digits = slice_subrange(s, 0, s.len() - 1);
        assert(digits@ =~= s@.drop_last());
        parse_usize(digits)
    } else {
        None
    }
}

/// Whether `parse_count_and_message` takes this line.
fn count_in_range(content: &str) -> (r: bool)
    ensures
        r == count_readable(content@),
{
    let v = chars_of(content);
    let t = skip_start(v.as_slice(), Class::Space);
    let mark = chars_of(" — ");
    match find_text(t, mark.as_slice()) {
        Some(d) => read_times(strip(slice_subrange(t, 0, d), Class::Space)).is_none(),
        None => true,
    }
}

fn parse_count_and_message(content: &str) -> (r: (usize, String))
    requires
        count_readable(content@),
    ensures
        (r.0 as int, r.1@) == count_and_message(content@),
{
    let v = chars_of(content);
    let t = skip_start(v.as_slice(), Class::Space);
    let len: usize = t.len();
    let long = chars_of(" — ");
    let short = chars_of(" - ");
    proof {
        reveal_strlit(" - ");
    }
    if find_text(t, long.as_slice()).is_none() {
        match find_text(t, short.as_slice()) {
            Some(d) => {
                match read_times(strip(slice_subrange(t, 0, d), Class::Space)) {
                    Some(n) => {
                        assert(short@.len() == 3);
                        let rest = skip_start(slice_subrange(t, d + 3, len), Class::Space);
                        return (n, string_of(rest));
                    },
                    None => {},
                }
            },
            None => {},
        }
    }
    if len > 0 && t[0] == '[' {
        let close: usize = scan_forward(t, 0, Class::Not(']'));
        if 0 < close && close < len {
            match read_times(slice_subrange(t, 1, close)) {
                Some(n) => {
                    let rest = skip_start(slice_subrange(t, close + 1, len), Class::Space);
                    return (n, string_of(rest));
                },
                None => {},
            }
        }
    }
    (1, content.to_owned())
}

/// A line that stands for a number of lines.
#[verifier::ext_equal]
pub struct EntryView {
    pub index: usize,
    pub log: LogView,
    pub message: Seq<char>,
    pub count: int,
    pub last_secs: Option<int>,
}

impl EntryView {
    pub open spec fn same(self, service: Seq<char>, message: Seq<char>) -> bool {
        self.log.service == service && self.message == message
    }
}

/// The last of the first `n` entries with this service and message.
pub open spec fn last_same(entries: Seq<EntryView>, service: Seq<char>, message: Seq<char>, n: int) -> Option<int>
    decreases n,
{
    if !(0 < n <= entries.len()) {
        None
    } else if entries[n - 1].same(service, message) {
        Some(n - 1)
    } else {
        last_same(entries, service, message, n - 1)
    }
}

/// The entry that a line may be folded into.
pub open spec fn candidate(
    entries: Seq<EntryView>,
    mode: DedupMode,
    service: Seq<char>,
    message: Seq<char>,
) -> Option<int> {
    let n = entries.len() as int;
    match mode {
        DedupMode::Consecutive => if n > 0 && entries[n - 1].same(service, message) {
            Some(n - 1)
        } else {
            None
        },
        _ => last_same(entries, service, message, n),
    }
}

/// The seconds that count for the fold: only a window looks at the time.
pub open spec fn secs_of(mode: DedupMode, log: LogView) -> Option<int> {
    match mode {
        DedupMode::Window(_) => match log.timestamp {
            Some(ts) => time::timestamp_secs(ts),
            None => None,
        },
        _ => None,
    }
}

/// Whether the time between two lines lies in the window.
pub open spec fn within(mode: DedupMode, last: Option<int>, now: Option<int>) -> bool {
    match (mode, last, now) {
        (DedupMode::Window(w), Some(a), Some(b)) => b - a <= w.secs,
        _ => true,
    }
}

/// The entries once one more line has come.
pub open spec fn with_row(entries: Seq<EntryView>, row: Row, mode: DedupMode) -> Seq<EntryView> {
    let (count, message) = count_and_message(row.log.content);
    let secs = secs_of(mode, row.log);
    let fresh = EntryView { index: row.index, log: row.log, message, count, last_secs: secs };
    match candidate(entries, mode, row.log.service, message) {
        Some(k) => if within(mode, entries[k].last_secs, secs) {
            entries.update(
                k,
                EntryView {
                    count: entries[k].count + count,
                    last_secs: if secs is Some {
                        secs
                    } else {
                        entries[k].last_secs
                    },
                    ..entries[k]
                },
            )
        } else {
            entries.push(fresh)
        },
        None => entries.push(fresh),
    }
}

/// The entries that the first `n` lines make.
pub open spec fn entries_of(rows: Seq<Row>, n: int, mode: DedupMode) -> Seq<EntryView>
    decreases n,
{
    if !(0 < n <= rows.len()) {
        seq![]
    } else {
        with_row(entries_of(rows, n - 1, mode), rows[n - 1], mode)
    }
}

/// The raw message of a line with a count.
pub open spec fn counted_text(count: int, message: Seq<char>) -> Seq<char> {
    "\u{1b}[30;47;1m "@ + numbers::decimal(count as nat) + "x \u{1b}[0m — "@ + message
}

/// The line that an entry is shown as.
pub open spec fn entry_row(e: EntryView) -> Row {
    Row {
        index: e.index,
        log: if e.count > 1 {
            LogView::made(
                e.log.service,
                counted_text(e.count, e.message),
                e.log.level,
                e.log.timestamp,
                e.log.is_system,
            )
        } else {
            e.log
        },
    }
}

/// The lines with their repetitions folded.
pub open spec fn deduplicated(rows: Seq<Row>, mode: DedupMode) -> Seq<Row> {
    entries_of(rows, rows.len() as int, mode).map_values(|e: EntryView| entry_row(e))
}

/// Whether a line can be counted and, for a window, dated.
pub open spec fn log_countable(log: LogView, mode: DedupMode) -> bool {
    &&& count_readable(log.content)
    &&& mode is Window && log.timestamp is Some ==> time::timestamp_fits(log.timestamp->0)
}

/// Whether an entry can be shown: its count is a machine number and its text can be read.
pub open spec fn entry_showable(e: EntryView) -> bool {
    &&& e.count <= usize::MAX
    &&& e.count > 1 ==> ansi::commands_ascii(counted_text(e.count, e.message), 0)
}

/// Whether the lines can be folded.
pub open spec fn dedup_ready(rows: Seq<Row>, mode: DedupMode) -> bool {
    let entries = entries_of(rows, rows.len() as int, mode);
    &&& forall|i: int| 0 <= i < rows.len() ==> log_countable((#[trigger] rows[i]).log, mode)
    &&& forall|i: int| 0 <= i < entries.len() ==> entry_showable(#[trigger] entries[i])
}

// ---------------------------------------------------------------------------
// What folding keeps
// ---------------------------------------------------------------------------

/// How many lines the entries stand for.
pub open spec fn total(entries: Seq<EntryView>) -> int
    decreases entries.len(),
{
    if entries.len() == 0 {
        0
    } else {
        total(entries.drop_last()) + entries.last().count
    }
}

/// How many lines the first `n` lines stand for.
pub open spec fn total_rows(rows: Seq<Row>, n: int) -> int
    decreases n,
{
    if !(0 < n <= rows.len()) {
        0
    } else {
        total_rows(rows, n - 1) + count_and_message(rows[n - 1].log.content).0
    }
}

proof fn lemma_total_update(entries: Seq<EntryView>, k: int, e: EntryView)
    requires
        0 <= k < entries.len(),
    ensures
        total(entries.update(k, e)) == total(entries) - entries[k].count + e.count,
    decreases entries.len(),
{
    let u = entries.update(k, e);
    if k == entries.len() - 1 {
        assert(u.drop_last() =~= entries.drop_last());
    } else {
        lemma_total_update(entries.drop_last(), k, e);
        assert(u.drop_last() =~= entries.drop_last().update(k, e));
    }
}

pub proof fn lemma_last_same(entries: Seq<EntryView>, service: Seq<char>, message: Seq<char>, n: int)
    requires
        0 <= n <= entries.len(),
    ensures
        last_same(entries, service, message, n) matches Some(k) ==> 0 <= k < n && entries[k].same(service, message),
        last_same(entries, service, message, n) is None ==> forall|k: int|
            0 <= k < n ==> !(#[trigger] entries[k]).same(service, message),
    decreases n,
{
    if n > 0 {
        lemma_last_same(entries, service, message, n - 1);
    }
}

/// The entries stand for as many lines as the lines they were made of.
pub proof fn law_fold_keeps_total(rows: Seq<Row>, n: int, mode: DedupMode)
    requires
        0 <= n <= rows.len(),
    ensures
        total(entries_of(rows, n, mode)) == total_rows(rows, n),
    decreases n,
{
    if n > 0 {
        law_fold_keeps_total(rows, n - 1, mode);
        let before = entries_of(rows, n - 1, mode);
        let row = rows[n - 1];
        let (count, message) = count_and_message(row.log.content);
        lemma_last_same(before, row.log.service, message, before.len() as int);
        let after = with_row(before, row, mode);
        match candidate(before, mode, row.log.service, message) {
            Some(k) => {
                if within(mode, before[k].last_secs, secs_of(mode, row.log)) {
                    lemma_total_update(before, k, after[k]);
                } else {
                    assert(after.drop_last() =~= before);
                }
            },
            None => {
                assert(after.drop_last() =~= before);
            },
        }
    }
}

/// When all repetitions are folded, no two entries share service and message.
pub proof fn law_fold_all_leaves_no_repeats(rows: Seq<Row>, n: int)
    requires
        0 <= n <= rows.len(),
    ensures
        forall|i: int, j: int|
            0 <= i < j < entries_of(rows, n, DedupMode::All).len() ==> !(#[trigger] entries_of(
                rows,
                n,
                DedupMode::All,
            )[i]).same(
                (#[trigger] entries_of(rows, n, DedupMode::All)[j]).log.service,
                entries_of(rows, n, DedupMode::All)[j].message,
            ),
    decreases n,
{
    if n > 0 {
        law_fold_all_leaves_no_repeats(rows, n - 1);
        let before = entries_of(rows, n - 1, DedupMode::All);
        let row = rows[n - 1];
        let message = count_and_message(row.log.content).1;
        lemma_last_same(before, row.log.service, message, before.len() as int);
    }
}

/// Folding keeps the first line of each fold, so lines in order stay in order.
pub proof fn law_fold_keeps_order(rows: Seq<Row>, n: int, mode: DedupMode)
    requires
        0 <= n <= rows.len(),
        forall|i: int, j: int| 0 <= i < j < rows.len() ==> (#[trigger] rows[i]).index < (#[trigger] rows[j]).index,
    ensures
        forall|i: int, j: int|
            0 <= i < j < entries_of(rows, n, mode).len() ==> (#[trigger] entries_of(rows, n, mode)[i]).index < (
            #[trigger] entries_of(rows, n, mode)[j]).index,
        forall|i: int|
            0 <= i < entries_of(rows, n, mode).len() ==> exists|k: int|
                0 <= k < n && (#[trigger] entries_of(rows, n, mode)[i]).index == (#[trigger] rows[k]).index,
    decreases n,
{
    if n > 0 {
        law_fold_keeps_order(rows, n - 1, mode);
        let before = entries_of(rows, n - 1, mode);
        let row = rows[n - 1];
        let message = count_and_message(row.log.content).1;
        lemma_last_same(before, row.log.service, message, before.len() as int);
        let after = entries_of(rows, n, mode);
        assert(after == with_row(before, row, mode));
        assert forall|i: int| 0 <= i < after.len() implies exists|k: int|
            0 <= k < n && (#[trigger] after[i]).index == (#[trigger] rows[k]).index by {
            if i < before.len() {
                let k = choose|k: int| 0 <= k < n - 1 && before[i].index == (#[trigger] rows[k]).index;
                assert(after[i].index == rows[k].index);
            } else {
                assert(after[i].index == rows[n - 1].index);
            }
        }
        assert forall|i: int, j: int| 0 <= i < j < after.len() implies (#[trigger] after[i]).index < (
        #[trigger] after[j]).index by {
            let k = choose|k: int| 0 <= k < n - 1 && before[i].index == (#[trigger] rows[k]).index;
            if j < before.len() {
                assert(before[i].index < before[j].index);
            } else {
                assert(rows[k].index < rows[n - 1].index);
            }
        }
    }
}

struct Entry {
    index: usize,
    log: LogItem,
    message: String,
    count: u128,
    last_secs: Option<u64>,
}

spec fn secs_view(o: Option<u64>) -> Option<int> {
    match o {
        Some(x) => Some(x as int),
        None => None,
    }
}

impl View for Entry {
    type V = EntryView;

    closed spec fn view(&self) -> EntryView {
        EntryView {
            index: self.index,
            log: self.log@,
            message: self.message@,
            count: self.count as int,
            last_secs: secs_view(self.last_secs),
        }
    }
}

spec fn entries_view(v: Seq<Entry>) -> Seq<EntryView> {
    v.map_values(|e: Entry| e@)
}

fn entry_same(e: &Entry, service: &str, message: &str) -> (r: bool)
    ensures
        r == e@.same(service@, message@),
{
    same_str(e.log.service.as_str(), service) && same_str(e.message.as_str(), message)
}

fn find_candidate(entries: &Vec<Entry>, mode: DedupMode, service: &str, message: &str) -> (r: Option<usize>)
    ensures
        r matches Some(k) ==> candidate(entries_view(entries@), mode, service@, message@) == Some(k as int) && k
            < entries@.len(),
        r is None ==> candidate(entries_view(entries@), mode, service@, message@) is None,
{
    let ghost views = entries_view(entries@);
    let mut n: usize = entries.len();
    if let DedupMode::Consecutive = mode {
        if n > 0 {
            assert(views[n - 1] == entries@[n - 1]@);
            if entry_same(&entries[n - 1], service, message) {
                return Some(n - 1);
            }
        }
        return None;
    }
    while n > 0
        invariant
            n <= entries@.len(),
            views == entries_view(entries@),
            !(mode is Consecutive),
            candidate(views, mode, service@, message@) == last_same(views, service@, message@, n as int),
        decreases n,
    {
        assert(views[n - 1] == entries@[n - 1]@);
        if entry_same(&entries[n - 1], service, message) {
            return Some(n - 1);
        }
        n -= 1;
    }
    None
}

fn is_within(mode: DedupMode, last: Option<u64>, now: Option<u64>) -> (r: bool)
    ensures
        r == within(mode, secs_view(last), secs_view(now)),
{
    match (mode, last, now) {
        (DedupMode::Window(w), Some(a), Some(b)) => b.saturating_sub(a) <= w.secs,
        _ => true,
    }
}

fn row_in_range(log: &LogItem, mode: DedupMode) -> (r: bool)
    ensures
        r == log_countable(log@, mode),
{
    if !count_in_range(log.content.as_str()) {
        return false;
    }
    match (mode, &log.timestamp) {
        (DedupMode::Window(_), Some(ts)) => timestamp_in_range(ts.as_str()),
        _ => true,
    }
}

fn secs_for(mode: DedupMode, log: &LogItem) -> (r: Option<u64>)
    requires
        mode is Window && log@.timestamp is Some ==> time::timestamp_fits(log@.timestamp->0),
    ensures
        secs_view(r) == secs_of(mode, log@),
{
    match (mode, &log.timestamp) {
        (DedupMode::Window(_), Some(ts)) => parse_timestamp_secs(ts.as_str()),
        _ => None,
    }
}

spec fn counts_bounded(entries: Seq<Entry>, n: int) -> bool {
    forall|k: int| 0 <= k < entries.len() ==> (#[trigger] entries[k]).count <= n * 0xffff_ffff_ffff_ffff
}

/// Adds a line to the entries.
fn add_row(entries: &mut Vec<Entry>, index: usize, log: LogItem, mode: DedupMode, n: Ghost<int>)
    requires
        log_countable(log@, mode),
        0 <= n@ < usize::MAX,
        counts_bounded(old(entries)@, n@),
    ensures
        entries_view(final(entries)@) == with_row(entries_view(old(entries)@), (Row { index, log: log@ }), mode),
        counts_bounded(final(entries)@, n@ + 1),
{
    let ghost before = entries@;
    let (count, message) = parse_count_and_message(log.content.as_str());
    let secs = secs_for(mode, &log);
    let found = find_candidate(entries, mode, log.service.as_str(), message.as_str());
    assert(n@ * 0xffff_ffff_ffff_ffff + 0xffff_ffff_ffff_ffff == (n@ + 1) * 0xffff_ffff_ffff_ffff);
    assert((n@ + 1) * 0xffff_ffff_ffff_ffff <= 0xffff_ffff_ffff_ffff * 0xffff_ffff_ffff_ffff) by (nonlinear_arith)
        requires
            0 <= n@ < 0xffff_ffff_ffff_ffff,
    ;
    match found {
        Some(k) => {
            assert(entries_view(before)[k as int] == before[k as int]@);
            if is_within(mode, entries[k].last_secs, secs) {
                let kept = if secs.is_some() {
                    secs
                } else {
                    entries[k].last_secs
                };
                let total: u128 = entries[k].count + count as u128;
                entries[k].count = total;
                entries[k].last_secs = kept;
                assert(entries_view(entries@) =~= entries_view(before).update(k as int, entries@[k as int]@));
                return;
            }
        },
        None => {},
    }
    let e = Entry { index, log, message, count: count as u128, last_secs: secs };
    let ghost view = e@;
    entries.push(e);
    assert(entries_view(entries@) =~= entries_view(before).push(view));
}

fn counted_message(count: usize, message: &str) -> (r: String)
    ensures
        r@ == counted_text(count as int, message@),
{
    let mut v = chars_of("\u{1b}[30;47;1m ");
    let mut d = decimal_of(count as u64);
    let mut mark = chars_of("x \u{1b}[0m — ");
    let mut m = chars_of(message);
    v.append(&mut d);
    v.append(&mut mark);
    v.append(&mut m);
    string_of(v.as_slice())
}

fn build_counted_log_item(log: &LogItem, count: usize, message: &str) -> (r: LogItem)
    requires
        ansi::commands_ascii(counted_text(count as int, message@), 0),
    ensures
        r@ == LogView::made(
            log@.service,
            counted_text(count as int, message@),
            log@.level,
            log@.timestamp,
            log@.is_system,
        ),
{
    LogItem::new(
        log.service.clone(),
        counted_message(count, message),
        copy_opt(&log.level),
        copy_opt(&log.timestamp),
        log.is_system,
    )
}

/// The line that an entry is shown as, if it can be shown.
fn show_entry(e: &Entry) -> (r: Option<(usize, LogItem)>)
    ensures
        r is Some == entry_showable(e@),
        r matches Some(p) ==> (Row { index: p.0, log: p.1@ }) == entry_row(e@),
{
    if e.count > usize::MAX as u128 {
        return None;
    }
    let count: usize = e.count as usize;
    if count > 1 {
        if !ansi_readable(counted_message(count, e.message.as_str()).as_str()) {
            return None;
        }
        Some((e.index, build_counted_log_item(&e.log, count, e.message.as_str())))
    } else {
        Some((e.index, e.log.clone()))
    }
}

/// Folds the repetitions, where the lines allow it.
pub(crate) fn fold_repeats(items: &Vec<(usize, LogItem)>, mode: DedupMode) -> (r: Option<Vec<(usize, LogItem)>>)
    ensures
        r is Some == dedup_ready(rows_view(items@), mode),
        r matches Some(v) ==> rows_view(v@) == deduplicated(rows_view(items@), mode),
{
    let ghost rows = rows_view(items@);
    let mut entries: Vec<Entry> = Vec::new();
    let mut i: usize = 0;
    assert(entries_view(entries@) =~= seq![]);
    while i < items.len()
        invariant
            i <= items@.len(),
            rows == rows_view(items@),
            forall|j: int| 0 <= j < i ==> log_countable((#[trigger] rows[j]).log, mode),
            entries_view(entries@) == entries_of(rows, i as int, mode),
            counts_bounded(entries@, i as int),
        decreases items@.len() - i,
    {
        let log = &items[i].1;
        assert(rows[i as int] == (Row { index: items@[i as int].0, log: log@ }));
        if !row_in_range(log, mode) {
            return None;
        }
        add_row(&mut entries, items[i].0, log.clone(), mode, Ghost(i as int));
        i += 1;
    }
    let ghost all = entries_of(rows, rows.len() as int, mode);
    let mut out: Vec<(usize, LogItem)> = Vec::new();
    let mut k: usize = 0;
    while k < entries.len()
        invariant
            k <= entries@.len(),
            rows == rows_view(items@),
            all == entries_of(rows, rows.len() as int, mode),
            entries_view(entries@) == all,
            forall|j: int| 0 <= j < k ==> entry_showable(#[trigger] all[j]),
            rows_view(out@) == deduplicated(rows, mode).take(k as int),
        decreases entries@.len() - k,
    {
        assert(all[k as int] == entries@[k as int]@);
        let ghost before = out@;
        match show_entry(&entries[k]) {
            Some(p) => {
                let ghost row = Row { index: p.0, log: p.1@ };
                out.push(p);
                assert(rows_view(out@) =~= rows_view(before).push(row));
                assert(deduplicated(rows, mode)[k as int] == entry_row(all[k as int]));
            },
            None => return None,
        }
        k += 1;
        assert(rows_view(out@) =~= deduplicated(rows, mode).take(k as int));
    }
    assert(rows_view(out@) =~= deduplicated(rows, mode));
    Some(out)
}

} // verus!
