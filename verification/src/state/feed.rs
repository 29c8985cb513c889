//! Lines coming in, and working out which lines are shown.

use super::fits::{self, lemma_same_lines, lemma_v_adjusted};
use super::view::{self, PromptMode, StateView, VisualMode};
use super::AppState;
use crate::arith::{self, max_of, min_of};
use crate::logitem::LogItem;
use crate::query::dedup::Row;
use crate::query::{self, parse_timestamp_secs, pipeline, Query};
use crate::service::{self, is_first_enabled, is_service_enabled};
use crate::text::{chars_of, not_after, string_of, strip, Class};
use vstd::prelude::*;

verus! {

/// `std::time::SystemTime::now`, turned into whole seconds since 1970: nothing is
/// known of it.
#[verifier::external_body]
pub(crate) fn wall_clock_secs() -> (r: u64) {
    std::time::SystemTime::now().duration_since(std::time::UNIX_EPOCH).unwrap_or_default().as_secs()
}

/// How many of the numbers, which stand in order, are below `x`.
fn find_rank(v: &Vec<usize>, x: usize) -> (r: usize)
    ensures
        r == view::rank(v@, x),
        r <= v@.len(),
{
    let mut n: usize = 0;
    let mut i: usize = 0;
    while i < v.len()
        invariant
            i <= v@.len(),
            n <= i,
            n == view::rank(v@.take(i as int), x),
        decreases v@.len() - i,
    {
        assert(v@.take(i + 1).drop_last() =~= v@.take(i as int));
        if v[i] < x {
            n += 1;
        }
        i += 1;
    }
    assert(v@.take(i as int) =~= v@);
    n
}

impl AppState {
    pub fn update_live_filter(&mut self)
        requires
            old(self)@.live_fits(),
        ensures
            final(self)@ == old(self)@.live_updated(),
    {
        if self.prompt_mode == PromptMode::Filter {
            let v = chars_of(self.input_buffer.as_str());
            let t = strip(v.as_slice(), Class::Space);
            if t.len() == 0 {
                self.live_filter_ast = None;
            } else {
                self.live_filter_ast = match Query::parse(string_of(t).as_str()) {
                    Ok(q) => Some(q),
                    Err(_) => None,
                };
            }
        } else {
            self.live_filter_ast = None;
        }
    }

    /// `update_live_filter`, where the text can be read as a query; else nothing changes.
    pub fn try_update_live_filter(&mut self) -> (r: bool)
        ensures
            r == old(self)@.live_fits(),
            final(self)@ == (if r {
                old(self)@.live_updated()
            } else {
                old(self)@
            }),
    {
        if self.prompt_mode == PromptMode::Filter {
            let v = chars_of(self.input_buffer.as_str());
            let t = strip(v.as_slice(), Class::Space);
            if Query::try_parse(string_of(t).as_str()).is_none() {
                return false;
            }
        }
        self.update_live_filter();
        true
    }

    /// The point in time that ages are counted from: that of the latest dated
    /// line; without one, the clock's.
    pub fn reference_timestamp_secs(&self) -> (r: u64)
        requires
            self@.times_fit(),
        ensures
            self@.may_be_now(r),
    {
        let mut n: usize = self.logs.len();
        while n > 0
            invariant
                n <= self.logs@.len(),
                fits::times_fit(self@.logs, n as int),
                view::latest_time(self@.logs, self@.logs.len() as int) == view::latest_time(self@.logs, n as int),
            decreases n,
        {
            assert(self@.logs[n - 1] == self.logs@[n - 1]@);
            match &self.logs[n - 1].timestamp {
                Some(ts) => match parse_timestamp_secs(ts.as_str()) {
                    Some(secs) => return secs,
                    None => {},
                },
                None => {},
            }
            n -= 1;
        }
        wall_clock_secs()
    }

    pub fn item_matches_filter(&self, log: &LogItem, ref_now_secs: u64) -> (r: bool)
        requires
            self@.testable(log@, ref_now_secs),
        ensures
            r == self@.accepts(log@, ref_now_secs),
    {
        if !is_first_enabled(&self.service_options, log.service.as_str()) {
            return false;
        }
        match &self.filter_ast {
            Some(q) => q.matches(log, ref_now_secs),
            None => true,
        }
    }

    /// `item_matches_filter`, where the filter can be tested on the line.
    pub fn try_item_matches(&self, log: &LogItem, ref_now_secs: u64) -> (r: Option<bool>)
        ensures
            r is Some == self@.testable(log@, ref_now_secs),
            r matches Some(b) ==> b == self@.accepts(log@, ref_now_secs),
    {
        if is_first_enabled(&self.service_options, log.service.as_str()) {
            match &self.filter_ast {
                Some(q) => {
                    if q.try_matches(log, ref_now_secs).is_none() {
                        return None;
                    }
                },
                None => {},
            }
        }
        Some(self.item_matches_filter(log, ref_now_secs))
    }

    /// The places of the lines of enabled services.
    fn enabled_indices(&self) -> (r: Vec<usize>)
        ensures
            r@ == query::indices(pipeline::selected(self@.logs, None, self@.service_options)),
    {
        let ghost lv = self@.logs;
        let ghost sv = self@.service_options;
        let ghost base = Option::<query::matcher::ExprView>::None;
        let ghost pred = |r: Row|
            service::service_enabled(sv, r.log.service) && (base matches Some(e) ==> e.holds(r.log));
        let ghost all = pipeline::all_rows(lv);
        let mut r: Vec<usize> = Vec::new();
        let mut i: usize = 0;
        assert(all.take(0).filter(pred) =~= seq![]) by {
            reveal(Seq::filter);
        }
        assert(query::indices(seq![]) =~= seq![]);
        while i < self.logs.len()
            invariant
                i <= self.logs@.len(),
                lv == self@.logs,
                sv == self@.service_options,
                base == Option::<query::matcher::ExprView>::None,
                pred == (|r: Row|
                    service::service_enabled(sv, r.log.service) && (base matches Some(e) ==> e.holds(r.log))),
                all == pipeline::all_rows(lv),
                r@ == query::indices(all.take(i as int).filter(pred)),
            decreases self.logs@.len() - i,
        {
            let ghost before = all.take(i as int).filter(pred);
            assert(lv[i as int] == self.logs@[i as int]@);
            assert(all.take(i + 1).drop_last() =~= all.take(i as int));
            reveal(Seq::filter);
            if is_service_enabled(&self.service_options, self.logs[i].service.as_str()) {
                r.push(i);
                assert(r@ =~= query::indices(before.push(all[i as int])));
            }
            i += 1;
        }
        assert(all.take(i as int) =~= all);
        r
    }

    /// The row nearest to the line at place `target`.
    fn row_near(&self, target: usize) -> (r: usize)
        ensures
            r == arith::lesser(view::rank(self@.visible_indices, target), arith::less(self@.visible_count(), 1)),
    {
        min_of(find_rank(&self.visible_indices, target), self.visible_count().saturating_sub(1))
    }

    /// The places of the lines to show, and the lines where they are not those of the log.
    fn shown_at(&self, ref_now_secs: u64) -> (r: (Vec<usize>, Option<Vec<LogItem>>))
        requires
            self@.shown_ready(ref_now_secs),
        ensures
            (r.0@, query::opt_logs(r.1)) == self@.shown(ref_now_secs),
    {
        match &self.filter_ast {
            Some(q) => q.execute_on_deque(&self.logs, &self.service_options, ref_now_secs),
            None => (self.enabled_indices(), None),
        }
    }

    fn index_at(&self, row: usize) -> (r: Option<usize>)
        ensures
            r == self@.index_at(row as int),
    {
        if row < self.visible_indices.len() {
            Some(self.visible_indices[row])
        } else {
            None
        }
    }

    /// Keeps the scroll and the cursor on the lines they were on.
    fn keep_place(&mut self, top: Option<usize>, at_cursor: Option<usize>)
        ensures
            final(self)@ == old(self)@.place_kept(top, at_cursor),
    {
        reveal(StateView::place_kept);
        let total: usize = self.visible_count();
        let scroll: usize = match top {
            Some(target) => self.row_near(target),
            None => self.scroll_offset,
        };
        let row: usize = match at_cursor {
            Some(target) => self.row_near(target),
            None => self.cursor_row,
        };
        self.scroll_offset = min_of(scroll, total.saturating_sub(self.viewport_height));
        self.cursor_row = min_of(row, total.saturating_sub(1));
    }

    /// Shows the lines that are to be shown.
    fn show_at(&mut self, ref_now_secs: u64)
        requires
            old(self)@.shown_ready(ref_now_secs),
        ensures
            final(self)@ == (StateView {
                visible_indices: old(self)@.shown(ref_now_secs).0,
                synthetic_logs: old(self)@.shown(ref_now_secs).1,
                ..old(self)@
            }),
    {
        let (visible, synthetic) = self.shown_at(ref_now_secs);
        self.visible_indices = visible;
        self.synthetic_logs = synthetic;
    }

    /// `recompute_visible_indices`, with ages counted from the given point in time.
    pub fn recompute_visible_indices_at(&mut self, ref_now_secs: u64)
        requires
            old(self)@.shown_ready(ref_now_secs),
        ensures
            final(self)@ == old(self)@.recomputed(ref_now_secs),
    {
        let top = self.index_at(self.scroll_offset);
        let at_cursor = self.index_at(self.cursor_row);
        self.show_at(ref_now_secs);
        self.keep_place(top, at_cursor);
    }

    /// Works out anew which lines are shown.
    pub fn recompute_visible_indices(&mut self)
        requires
            old(self)@.times_fit(),
            forall|now: u64| old(self)@.may_be_now(now) ==> #[trigger] old(self)@.shown_ready(now),
        ensures
            exists|now: u64| old(self)@.may_be_now(now) && final(self)@ == #[trigger] old(self)@.recomputed(now),
    {
        let now: u64 = self.reference_timestamp_secs();
        assert(self@.shown_ready(now));
        self.recompute_visible_indices_at(now);
        assert(self@ == old(self)@.recomputed(now));
    }

    /// Whether the lines to show can be worked out.
    pub fn can_recompute(&self, ref_now_secs: u64) -> (r: bool)
        ensures
            r == self@.shown_ready(ref_now_secs),
    {
        match &self.filter_ast {
            Some(q) => q.try_execute(&self.logs, &self.service_options, ref_now_secs).is_some(),
            None => true,
        }
    }

    /// `recompute_visible_indices`, where the lines to show can be worked out; else nothing changes.
    pub fn try_recompute(&mut self) -> (r: bool)
        ensures
            exists|now: u64|
                {
                    &&& old(self)@.times_fit() ==> old(self)@.may_be_now(now)
                    &&& r == (old(self)@.times_fit() && old(self)@.shown_ready(now))
                    &&& final(self)@ == (if r {
                        #[trigger] old(self)@.recomputed(now)
                    } else {
                        old(self)@
                    })
                },
    {
        if !self.can_tell_time() {
            let ghost any = self@.recomputed(0);
            return false;
        }
        let now: u64 = self.reference_timestamp_secs();
        let ghost after = self@.recomputed(now);
        if self.can_recompute(now) {
            self.recompute_visible_indices_at(now);
            true
        } else {
            false
        }
    }

    /// Drops the oldest line where there is no room for another.
    fn make_room(&mut self)
        ensures
            final(self)@ == old(self)@.room_made(),
    {
        if self.logs.len() >= self.max_capacity {
            let ghost held = self.logs@;
            let ghost all = self@.logs;
            self.logs.pop_front();
            self.cursor_row = self.cursor_row.saturating_sub(1);
            if let Some((row, col)) = self.visual_anchor {
                self.visual_anchor = Some((row.saturating_sub(1), col));
            }
            assert(self@.logs =~= all.skip(arith::lesser(1, held.len() as int)));
        }
    }

    /// The place of a new line.
    fn find_place(&self, item: &LogItem) -> (r: usize)
        ensures
            r == self@.place_of(item@),
            r <= self@.logs.len(),
    {
        let len: usize = self.logs.len();
        let mut place: usize = len;
        if let Some(ts) = &item.timestamp {
            while place > 0
                invariant_except_break
                    place <= len,
                    len == self@.logs.len(),
                    view::place_for(self@.logs, ts@, len as int) == view::place_for(
                        self@.logs,
                        ts@,
                        place as int,
                    ),
                ensures
                    place <= len,
                    place == view::place_for(self@.logs, ts@, len as int),
                decreases place,
            {
                assert(self@.logs[place - 1] == self.logs@[place - 1]@);
                if let Some(prev) = &self.logs[place - 1].timestamp {
                    if not_after(prev.as_str(), ts.as_str()) {
                        break;
                    }
                }
                place -= 1;
            }
        }
        place
    }

    /// Puts a line in its place; the oldest line makes room for it where there is none.
    /// Whether it went behind all others.
    fn insert_log(&mut self, item: LogItem) -> (r: bool)
        ensures
            final(self)@ == old(self)@.inserted(item@),
            r == (old(self)@.room_made().place_of(item@) == old(self)@.room_made().logs.len()),
            final(self)@.logs.len() > 0,
            r ==> final(self)@.logs.last() == item@,
    {
        self.make_room();
        let ghost all = self@.logs;
        let ghost view = item@;
        let len: usize = self.logs.len();
        let place: usize = self.find_place(&item);
        self.logs.insert(place, item);
        assert(self@.logs =~= all.insert(place as int, view));
        place == len
    }

    /// Follows a new line.
    fn follow(&mut self, was_at_bottom: bool)
        requires
            old(self)@.follow_fits(was_at_bottom),
        ensures
            final(self)@ == old(self)@.followed(was_at_bottom),
    {
        let count: usize = self.visible_count();
        if self.visual_mode == VisualMode::Off {
            if was_at_bottom {
                if count > 0 {
                    let ghost moved = StateView { cursor_row: count - 1, ..self@ };
                    proof {
                        lemma_same_lines(self@, moved);
                        lemma_v_adjusted(moved);
                        lemma_same_lines(moved, moved.v_adjusted());
                    }
                    self.cursor_row = count - 1;
                    self.adjust_scroll();
                    self.move_to_bottom();
                }
            } else {
                let limit: usize = self.cursor_row.saturating_sub(max_of(self.scrolloff, 6));
                if self.scroll_offset > limit {
                    self.scroll_offset = limit;
                }
            }
        }
    }

    fn is_at_bottom(&self) -> (r: bool)
        ensures
            r == self@.at_bottom(),
    {
        let count: usize = self.visible_count();
        count == 0 || self.cursor_row >= count - 1
    }

    fn filter_streams(&self) -> (r: bool)
        ensures
            r == (self@.filter_ast matches Some(q) && q.streams()),
    {
        match &self.filter_ast {
            Some(q) => q.has_stream_modifiers(),
            None => false,
        }
    }

    /// Shows the line that was just put behind all others, if it is to be shown.
    fn note_last(&mut self, now: u64)
        requires
            old(self)@.logs.len() > 0,
            old(self)@.testable(old(self)@.logs.last(), now),
        ensures
            final(self)@ == (if old(self)@.accepts(old(self)@.logs.last(), now) {
                StateView {
                    visible_indices: old(self)@.visible_indices.push((old(self)@.logs.len() - 1) as usize),
                    ..old(self)@
                }
            } else {
                old(self)@
            }),
    {
        let idx: usize = self.logs.len() - 1;
        assert(self@.logs.last() == self.logs@[idx as int]@);
        if self.item_matches_filter(&self.logs[idx], now) {
            self.visible_indices.push(idx);
        }
    }

    /// Takes in a line.
    pub fn push_log(&mut self, item: LogItem)
        requires
            old(self)@.inserted(item@).times_fit(),
            forall|now: u64|
                old(self)@.inserted(item@).may_be_now(now) ==> #[trigger] old(self)@.push_ready(item@, now)
                    && old(self)@.noted(item@, now).follow_fits(old(self)@.at_bottom()),
        ensures
            exists|now: u64|
                old(self)@.inserted(item@).may_be_now(now) && final(self)@ == #[trigger] old(self)@.pushed(item@, now),
    {
        let ghost start = self@;
        let ghost view = item@;
        let was_at_bottom: bool = self.is_at_bottom();
        let streams: bool = self.filter_streams();
        let at_end: bool = self.insert_log(item);
        let now: u64 = self.reference_timestamp_secs();
        assert(start.push_ready(view, now));
        if at_end && !streams {
            self.note_last(now);
        } else {
            self.recompute_visible_indices_at(now);
        }
        assert(self@ == start.noted(view, now));
        self.follow(was_at_bottom);
        assert(self@ == start.pushed(view, now));
    }

    /// `push_log`, as far as the lines that it looks at can be dated, filtered and
    /// measured. The line is in its place in any case.
    pub fn try_push_log(&mut self, item: LogItem) -> (r: bool)
        ensures
            exists|now: u64|
                {
                    &&& old(self)@.inserted(item@).times_fit() ==> old(self)@.inserted(item@).may_be_now(now)
                    &&& r == #[trigger] old(self)@.can_push(item@, now)
                    &&& final(self)@ == old(self)@.pushed_as_far(item@, now)
                },
    {
        let ghost start = self@;
        let ghost view = item@;
        let was_at_bottom: bool = self.is_at_bottom();
        let streams: bool = self.filter_streams();
        let at_end: bool = self.insert_log(item);
        if !self.can_tell_time() {
            assert(!start.can_push(view, 0));
            return false;
        }
        let now: u64 = self.reference_timestamp_secs();
        let ghost able = start.can_push(view, now);
        if at_end && !streams {
            let last: usize = self.logs.len() - 1;
            assert(self@.logs.last() == self.logs@[last as int]@);
            if self.try_item_matches(&self.logs[last], now).is_none() {
                return false;
            }
            self.note_last(now);
        } else {
            if !self.can_recompute(now) {
                return false;
            }
            self.recompute_visible_indices_at(now);
        }
        assert(self@ == start.noted(view, now));
        if self.visual_mode == VisualMode::Off && was_at_bottom && !self.can_move_to_bottom() {
            return false;
        }
        self.follow(was_at_bottom);
        true
    }
}

} // verus!
