//! The bar that shows the keys, the time and the place in the log.

use super::area::Area;
use super::pane;
use super::span::{self, put, put_str, Span};
use crate::ansi::Piece;
use crate::arith::{self, max_of, min_of};
use crate::config::theme::{self, UiTheme};
use crate::logitem;
use crate::numbers::{self, decimal_of};
use crate::query::time::{self, parse_timestamp_secs};
use crate::state::feed::wall_clock_secs;
use crate::state::fits::item_dated;
use crate::state::view::{self, PromptMode, StateView, VisualMode};
use crate::state::AppState;
use crate::style::{Emphasis, RatColor, Style};
use crate::text::{self, chars_of, cut_at, pieces, skip_end, string_of, Class};
use vstd::prelude::*;

verus! {

// ---------------------------------------------------------------------------
// Times as they are shown
// ---------------------------------------------------------------------------

/// What stands behind the day in a date, without the mark of the zone.
pub open spec fn clock_part(ts: Seq<char>) -> Option<Seq<char>> {
    let clean = text::trim_end(ts, Class::Is('Z'));
    match text::split_once(clean, 'T') {
        Some((_, t)) => Some(t),
        None => match text::split_once(clean, ' ') {
            Some((_, t)) => Some(t),
            None => None,
        },
    }
}

fn find_clock_part<'a>(ts: &'a [char]) -> (r: Option<&'a [char]>)
    ensures
        r is Some == clock_part(ts@) is Some,
        r matches Some(t) ==> clock_part(ts@) == Some(t@),
{
    let clean = skip_end(ts, Class::Is('Z'));
    match cut_at(clean, Class::Not('T')) {
        Some((_, t)) => Some(t),
        None => match cut_at(clean, Class::Not(' ')) {
            Some((_, t)) => Some(t),
            None => None,
        },
    }
}

/// The hours and minutes of a date.
pub open spec fn hours_minutes(ts: Seq<char>) -> Option<Seq<char>> {
    match clock_part(ts) {
        Some(t) => {
            let parts = text::split(t, ':');
            if parts.len() >= 2 {
                Some(parts[0] + seq![':'] + parts[1])
            } else {
                None
            }
        },
        None => None,
    }
}

/// The time of a date without the fraction of the second.
pub open spec fn whole_seconds(ts: Seq<char>) -> Option<Seq<char>> {
    match clock_part(ts) {
        Some(t) => Some(text::split(t, '.')[0]),
        None => None,
    }
}

pub fn format_time_hh_mm(ts: &str) -> (r: Option<String>)
    ensures
        logitem::opt_view(r) == hours_minutes(ts@),
{
    let v = chars_of(ts);
    match find_clock_part(v.as_slice()) {
        Some(t) => {
            let parts = pieces(t, ':');
            if parts.len() >= 2 {
                assert(text::views(parts@)[0] == parts@[0]@);
                assert(text::views(parts@)[1] == parts@[1]@);
                let mut r = string_of(parts[0]);
                r.append(":");
                r.append(string_of(parts[1]).as_str());
                proof {
                    reveal_strlit(":");
                    assert(":"@ =~= seq![':']);
                }
                Some(r)
            } else {
                None
            }
        },
        None => None,
    }
}

pub fn format_time_hh_mm_ss(ts: &str) -> (r: Option<String>)
    ensures
        logitem::opt_view(r) == whole_seconds(ts@),
{
    let v = chars_of(ts);
    match find_clock_part(v.as_slice()) {
        Some(t) => {
            let parts = pieces(t, '.');
            assert(text::split(t@, '.').len() >= 1);
            assert(text::views(parts@)[0] == parts@[0]@);
            Some(string_of(parts[0]))
        },
        None => None,
    }
}

/// A length of time, to the minute or to the hour.
pub open spec fn length_text(secs: int) -> Seq<char> {
    if secs < 60 {
        numbers::decimal(secs as nat) + "s"@
    } else if secs < 3600 {
        numbers::decimal((secs / 60) as nat) + "m"@
    } else if secs < 86400 {
        if (secs % 3600) / 60 == 0 {
            numbers::decimal((secs / 3600) as nat) + "h"@
        } else {
            numbers::decimal((secs / 3600) as nat) + "h "@ + numbers::decimal(((secs % 3600) / 60) as nat) + "m"@
        }
    } else {
        numbers::decimal((secs / 86400) as nat) + "d "@ + numbers::decimal(((secs % 86400) / 3600) as nat) + "h"@
    }
}

/// An age, in its largest unit.
pub open spec fn age_text(secs: int) -> Seq<char> {
    if secs < 60 {
        numbers::decimal(secs as nat) + "s"@
    } else if secs < 3600 {
        numbers::decimal((secs / 60) as nat) + "m"@
    } else if secs < 86400 {
        numbers::decimal((secs / 3600) as nat) + "h"@
    } else {
        numbers::decimal((secs / 86400) as nat) + "d"@
    }
}

/// A number and a unit.
fn counted(n: u64, unit: &str) -> (r: String)
    ensures
        r@ == numbers::decimal(n as nat) + unit@,
{
    let mut r = string_of(decimal_of(n).as_slice());
    r.append(unit);
    r
}

pub fn format_length(secs: u64) -> (r: String)
    ensures
        r@ == length_text(secs as int),
{
    if secs < 60 {
        counted(secs, "s")
    } else if secs < 3600 {
        counted(secs / 60, "m")
    } else if secs < 86400 {
        let minutes: u64 = (secs % 3600) / 60;
        if minutes == 0 {
            counted(secs / 3600, "h")
        } else {
            let mut r = counted(secs / 3600, "h ");
            r.append(counted(minutes, "m").as_str());
            assert(r@ =~= length_text(secs as int));
            r
        }
    } else {
        let mut r = counted(secs / 86400, "d ");
        r.append(counted((secs % 86400) / 3600, "h").as_str());
        assert(r@ =~= length_text(secs as int));
        r
    }
}

pub fn format_age(secs: u64) -> (r: String)
    ensures
        r@ == age_text(secs as int),
{
    if secs < 60 {
        counted(secs, "s")
    } else if secs < 3600 {
        counted(secs / 60, "m")
    } else if secs < 86400 {
        counted(secs / 3600, "h")
    } else {
        counted(secs / 86400, "d")
    }
}

// ---------------------------------------------------------------------------
// What the bar tells
// ---------------------------------------------------------------------------

/// An optional text, or another one in its place.
pub open spec fn text_or(o: Option<Seq<char>>, otherwise: Seq<char>) -> Seq<char> {
    match o {
        Some(s) => s,
        None => otherwise,
    }
}

/// The seconds that a date stands for, or zero.
pub open spec fn secs_or_zero(ts: Seq<char>) -> int {
    match time::timestamp_secs(ts) {
        Some(s) => s,
        None => 0,
    }
}

/// The time between two dates: both, and how far they lie apart.
pub open spec fn span_text(ts1: Seq<char>, ts2: Seq<char>) -> Seq<char> {
    let s1 = secs_or_zero(ts1);
    let s2 = secs_or_zero(ts2);
    let apart = if s1 <= s2 {
        s2 - s1
    } else {
        s1 - s2
    };
    let (t1, t2) = if apart < 60 {
        (text_or(whole_seconds(ts1), "00:00:00"@), text_or(whole_seconds(ts2), "00:00:00"@))
    } else {
        (text_or(hours_minutes(ts1), "00:00"@), text_or(hours_minutes(ts2), "00:00"@))
    };
    "\u{f13ab} "@ + t1 + " → "@ + t2 + " ("@ + length_text(apart) + ")  "@
}

fn secs_of(ts: &str) -> (r: u64)
    requires
        time::timestamp_fits(ts@),
    ensures
        r == secs_or_zero(ts@),
{
    match parse_timestamp_secs(ts) {
        Some(s) => s,
        None => 0,
    }
}

fn or_text(o: Option<String>, otherwise: &str) -> (r: String)
    ensures
        r@ == text_or(logitem::opt_view(o), otherwise@),
{
    match o {
        Some(s) => s,
        None => otherwise.to_owned(),
    }
}

pub fn format_span(ts1: &str, ts2: &str) -> (r: String)
    requires
        time::timestamp_fits(ts1@),
        time::timestamp_fits(ts2@),
    ensures
        r@ == span_text(ts1@, ts2@),
{
    let s1: u64 = secs_of(ts1);
    let s2: u64 = secs_of(ts2);
    let apart: u64 = if s1 <= s2 {
        s2 - s1
    } else {
        s1 - s2
    };
    let (t1, t2) = if apart < 60 {
        (or_text(format_time_hh_mm_ss(ts1), "00:00:00"), or_text(format_time_hh_mm_ss(ts2), "00:00:00"))
    } else {
        (or_text(format_time_hh_mm(ts1), "00:00"), or_text(format_time_hh_mm(ts2), "00:00"))
    };
    let mut r = "\u{f13ab} ".to_owned();
    r.append(t1.as_str());
    r.append(" → ");
    r.append(t2.as_str());
    r.append(" (");
    r.append(format_length(apart).as_str());
    r.append(")  ");
    r
}

impl StateView {
    /// The date of the line in a row.
    pub open spec fn date_at(self, row: int) -> Option<Seq<char>> {
        match self.visible_log(row) {
            Some(l) => l.timestamp,
            None => None,
        }
    }

    /// What is told of the time: how long the selection spans, or how old the line
    /// under the cursor is at the time `now`.
    pub open spec fn time_info(self, now: u64) -> Option<Seq<char>> {
        if self.visual_mode != VisualMode::Off {
            match self.visual_anchor {
                Some(a) => match (
                    self.date_at(arith::lesser(a.0 as int, self.cursor_row)),
                    self.date_at(arith::greater(a.0 as int, self.cursor_row)),
                ) {
                    (Some(ts1), Some(ts2)) => Some(span_text(ts1, ts2)),
                    _ => None,
                },
                None => None,
            }
        } else {
            match self.date_at(self.cursor_row) {
                Some(ts) => match time::timestamp_secs(ts) {
                    Some(t) => Some("\u{f144e} "@ + age_text(arith::less(now as int, t)) + "  "@),
                    None => None,
                },
                None => None,
            }
        }
    }

    /// The place of the cursor and the number of lines.
    pub open spec fn place_info(self) -> Seq<char> {
        "  "@ + numbers::decimal((self.cursor_row + 1) as nat) + ":"@ + numbers::decimal(
            (self.cursor_col + 1) as nat,
        ) + " / "@ + numbers::decimal(self.visible_count() as nat) + " "@
    }

    /// The style of the place: set off where there are lines below the screen.
    pub open spec fn place_style(self) -> Style {
        let below = self.scroll_offset < arith::less(self.visible_count(), self.viewport_height);
        if below && self.visible_count() > 0 {
            Style::plain().with(Emphasis::reversed().union(Emphasis::bold()))
        } else {
            Style::plain().fg(RatColor::DarkGray)
        }
    }

    /// What stands on the left: hints on queries while one is typed, else keys.
    pub open spec fn hints(self, theme: UiTheme) -> Seq<Piece> {
        let dim = Style::plain().fg(theme::terminal_color(theme.dim));
        let key = Style::plain().fg(RatColor::White).with(Emphasis::bold());
        let desc = Style::plain().fg(RatColor::DarkGray);
        if self.prompt_mode == PromptMode::Filter {
            seq![
                span::styled("hints: "@, dim.with(Emphasis::bold())),
                span::styled("\"err\" or 'warn' | `ipv4` | context 3 | dedup | dedup all | since 5m"@, dim),
            ]
        } else {
            seq![
                span::styled("C-s"@, key),
                span::styled(" services  "@, desc),
                span::styled("C-f"@, key),
                span::styled(" filter  "@, desc),
                span::styled("z"@, key),
                span::styled(
                    if self.line_fold {
                        " unfold  "@
                    } else {
                        " fold    "@
                    },
                    desc,
                ),
                span::styled("?"@, key),
                span::styled(" help   "@, desc),
            ]
        }
    }

    /// Whether the dates that the bar speaks of can be turned into seconds.
    pub open spec fn dates_fit(self) -> bool {
        if self.visual_mode != VisualMode::Off {
            match self.visual_anchor {
                Some(a) => match (
                    self.date_at(arith::lesser(a.0 as int, self.cursor_row)),
                    self.date_at(arith::greater(a.0 as int, self.cursor_row)),
                ) {
                    (Some(ts1), Some(ts2)) => time::timestamp_fits(ts1) && time::timestamp_fits(ts2),
                    _ => true,
                },
                None => true,
            }
        } else {
            self.date_at(self.cursor_row) matches Some(ts) ==> time::timestamp_fits(ts)
        }
    }

    /// Whether the bar tells how old the line under the cursor is.
    pub open spec fn tells_age(self) -> bool {
        self.visual_mode == VisualMode::Off && (self.date_at(self.cursor_row) matches Some(ts)
            && time::timestamp_secs(ts) is Some)
    }

    /// What stands on the right: the time and the place.
    pub open spec fn indicators(self, now: u64) -> Seq<Piece> {
        let place = span::styled(self.place_info(), self.place_style());
        match self.time_info(now) {
            Some(t) => seq![
                span::styled(t, Style::plain().fg(RatColor::LightCyan).with(Emphasis::bold())),
                place,
            ],
            None => seq![place],
        }
    }

    /// The width of what stands on the right, as a coordinate holds it.
    pub open spec fn indicators_width(self, now: u64) -> int {
        let t = match self.time_info(now) {
            Some(t) => t.len() as int,
            None => 0,
        };
        pane::coordinate(t + self.place_info().len())
    }
}

/// The bar: what stands on its left and on its right, and where.
pub struct StatusBar {
    pub left: Vec<Span>,
    pub left_area: Area,
    pub right: Vec<Span>,
    pub right_area: Area,
}

/// Whether a bar is the one for a state, with ages counted from `now`.
pub open spec fn is_bar_of(b: StatusBar, s: StateView, area: Area, theme: UiTheme, now: u64) -> bool {
    let w = s.indicators_width(now);
    &&& span::spans_view(b.left@) == s.hints(theme)
    &&& span::spans_view(b.right@) == s.indicators(now)
    &&& b.left_area == Area { x: area.x, y: area.y, width: arith::less(area.width as int, w) as u16, height: 1 }
    &&& b.right_area == Area {
        x: arith::less(area.end_x(), w) as u16,
        y: area.y,
        width: w as u16,
        height: 1,
    }
}

impl AppState {
    /// What is told of the time, with ages counted from `now`.
    fn tell_time(&self, now: u64) -> (r: Option<String>)
        requires
            self@.dates_fit(),
        ensures
            logitem::opt_view(r) == self@.time_info(now),
    {
        if self.visual_mode != VisualMode::Off {
            match self.visual_anchor {
                Some((anchor_row, _)) => {
                    let first = self.get_visible_log(min_of(anchor_row, self.cursor_row));
                    let last = self.get_visible_log(max_of(anchor_row, self.cursor_row));
                    match (first, last) {
                        (Some(a), Some(b)) => match (&a.timestamp, &b.timestamp) {
                            (Some(ts1), Some(ts2)) => Some(format_span(ts1.as_str(), ts2.as_str())),
                            _ => None,
                        },
                        _ => None,
                    }
                },
                None => None,
            }
        } else {
            match self.get_visible_log(self.cursor_row) {
                Some(log) => match &log.timestamp {
                    Some(ts) => match parse_timestamp_secs(ts.as_str()) {
                        Some(t) => {
                            let mut r = "\u{f144e} ".to_owned();
                            r.append(format_age(now.saturating_sub(t)).as_str());
                            r.append("  ");
                            Some(r)
                        },
                        None => None,
                    },
                    None => None,
                },
                None => None,
            }
        }
    }

    /// The place of the cursor and the number of lines.
    fn tell_place(&self) -> (r: String)
        requires
            self.cursor_row < usize::MAX,
            self.cursor_col < usize::MAX,
        ensures
            r@ == self@.place_info(),
    {
        let mut r = "  ".to_owned();
        r.append(string_of(decimal_of(self.cursor_row as u64 + 1).as_slice()).as_str());
        r.append(":");
        r.append(string_of(decimal_of(self.cursor_col as u64 + 1).as_slice()).as_str());
        r.append(" / ");
        r.append(string_of(decimal_of(self.visible_count() as u64).as_slice()).as_str());
        r.append(" ");
        r
    }

    fn tell_hints(&self, theme: &UiTheme) -> (r: Vec<Span>)
        ensures
            span::spans_view(r@) == self@.hints(*theme),
    {
        let mut line: Vec<Span> = Vec::new();
        assert(span::spans_view(line@) =~= seq![]);
        if self.prompt_mode == PromptMode::Filter {
            let dim = Style::plain().fg(theme.dim.to_ratatui());
            put_str(&mut line, "hints: ", dim.with(Emphasis::bold()));
            put_str(&mut line, "\"err\" or 'warn' | `ipv4` | context 3 | dedup | dedup all | since 5m", dim);
        } else {
            let key = Style::plain().fg(RatColor::White).with(Emphasis::bold());
            let desc = Style::plain().fg(RatColor::DarkGray);
            put_str(&mut line, "C-s", key);
            put_str(&mut line, " services  ", desc);
            put_str(&mut line, "C-f", key);
            put_str(&mut line, " filter  ", desc);
            put_str(&mut line, "z", key);
            let fold = if self.line_fold {
                " unfold  "
            } else {
                " fold    "
            };
            put_str(&mut line, fold, desc);
            put_str(&mut line, "?", key);
            put_str(&mut line, " help   ", desc);
        }
        assert(span::spans_view(line@) =~= self@.hints(*theme));
        line
    }

    fn style_of_place(&self) -> (r: Style)
        ensures
            r == self@.place_style(),
    {
        let count: usize = self.visible_count();
        if self.scroll_offset < count.saturating_sub(self.viewport_height) && count > 0 {
            Style::plain().with(Emphasis::reversed().union(Emphasis::bold()))
        } else {
            Style::plain().fg(RatColor::DarkGray)
        }
    }

    /// The bar, with ages counted from `now`.
    pub fn status_bar_at(&self, area: &Area, theme: &UiTheme, now: u64) -> (r: StatusBar)
        requires
            self@.dates_fit(),
            self.cursor_row < usize::MAX,
            self.cursor_col < usize::MAX,
        ensures
            is_bar_of(r, self@, *area, *theme, now),
    {
        let left = self.tell_hints(theme);
        let place = self.tell_place();
        let place_len: usize = place.as_str().unicode_len();
        let mut right: Vec<Span> = Vec::new();
        assert(span::spans_view(right@) =~= seq![]);
        let mut time_len: usize = 0;
        match self.tell_time(now) {
            Some(t) => {
                time_len = t.as_str().unicode_len();
                put(&mut right, t, Style::plain().fg(RatColor::LightCyan).with(Emphasis::bold()));
            },
            None => {},
        }
        put(&mut right, place, self.style_of_place());
        assert(span::spans_view(right@) =~= self@.indicators(now));
        let wide: u128 = (time_len as u128 + place_len as u128) % 65536;
        let width: u16 = wide as u16;
        StatusBar {
            left,
            left_area: Area { x: area.x, y: area.y, width: area.width.saturating_sub(width), height: 1 },
            right,
            right_area: Area { x: area.right().saturating_sub(width), y: area.y, width, height: 1 },
        }
    }

    /// Whether the dates that the bar speaks of can be turned into seconds.
    pub fn can_tell_dates(&self) -> (r: bool)
        ensures
            r == self@.dates_fit(),
    {
        if self.visual_mode != VisualMode::Off {
            match self.visual_anchor {
                Some((anchor_row, _)) => {
                    let first = self.get_visible_log(min_of(anchor_row, self.cursor_row));
                    let last = self.get_visible_log(max_of(anchor_row, self.cursor_row));
                    match (first, last) {
                        (Some(a), Some(b)) => a.timestamp.is_none() || b.timestamp.is_none() || (item_dated(a)
                            && item_dated(b)),
                        _ => true,
                    }
                },
                None => true,
            }
        } else {
            match self.get_visible_log(self.cursor_row) {
                Some(l) => item_dated(l),
                None => true,
            }
        }
    }

    /// Whether the bar tells how old the line under the cursor is.
    fn is_age_told(&self) -> (r: bool)
        requires
            self@.dates_fit(),
        ensures
            r == self@.tells_age(),
    {
        if self.visual_mode != VisualMode::Off {
            return false;
        }
        match self.get_visible_log(self.cursor_row) {
            Some(l) => match &l.timestamp {
                Some(ts) => parse_timestamp_secs(ts.as_str()).is_some(),
                None => false,
            },
            None => false,
        }
    }

    /// The bar. An age is counted from the clock's time or that of the latest line,
    /// whichever is later.
    pub fn render_status_bar(&self, area: &Area, theme: &UiTheme) -> (r: StatusBar)
        requires
            self@.dates_fit(),
            self@.tells_age() ==> self@.times_fit(),
            self.cursor_row < usize::MAX,
            self.cursor_col < usize::MAX,
        ensures
            exists|now: u64|
                (self@.tells_age() ==> (view::latest_time(self@.logs, self@.logs.len() as int) matches Some(t) ==> t
                    <= now)) && #[trigger] is_bar_of(r, self@, *area, *theme, now),
    {
        let mut now: u64 = 0;
        if self.is_age_told() {
            let latest: u64 = self.reference_timestamp_secs();
            let wall: u64 = wall_clock_secs();
            now = if latest >= wall {
                latest
            } else {
                wall
            };
        }
        self.status_bar_at(area, theme, now)
    }
}

} // verus!
