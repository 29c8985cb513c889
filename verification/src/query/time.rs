//! Durations and timestamps as they stand in queries and log lines.

use crate::numbers::{self, parse_signed, parse_unsigned};
use crate::text::{self, chars_of, cut_at, pieces, same_str, skip_end, string_of, strip, to_lower, Class};
use vstd::prelude::*;

verus! {

/// A span of time.
#[derive(Debug, Clone, Copy, PartialEq, Eq, Structural)]
pub struct Duration {
    pub secs: u64,
    pub nanos: u32,
}

impl Duration {
    #[verifier::allow_in_spec]
    pub fn as_secs(&self) -> (r: u64)
        returns
            self.secs,
    {
        self.secs
    }
}

// ---------------------------------------------------------------------------
// Durations
// ---------------------------------------------------------------------------

/// The digits of `s`, in order.
pub open spec fn digits_in(s: Seq<char>) -> Seq<char> {
    s.filter(|c: char| Class::Digit.has(c))
}

/// What is left of `s` without its digits.
pub open spec fn others_in(s: Seq<char>) -> Seq<char> {
    s.filter(|c: char| !Class::Digit.has(c))
}

/// How many milliseconds the unit stands for.
pub open spec fn unit_millis(u: Seq<char>) -> Option<int> {
    if u == "ms"@ {
        Some(1)
    } else if u == "s"@ || u == "sec"@ || u == "secs"@ || u == "second"@ || u == "seconds"@ {
        Some(1000)
    } else if u == "m"@ || u == "min"@ || u == "mins"@ || u == "minute"@ || u == "minutes"@ {
        Some(60_000)
    } else if u == "h"@ || u == "hr"@ || u == "hrs"@ || u == "hour"@ || u == "hours"@ {
        Some(3_600_000)
    } else if u == "d"@ || u == "day"@ || u == "days"@ {
        Some(86_400_000)
    } else {
        None
    }
}

/// The milliseconds that a text such as `5m` or `2 hours` stands for: its
/// digits as a number, the rest as a unit.
pub open spec fn duration_millis(s: Seq<char>) -> Option<int> {
    let t = text::trimmed(s);
    match (
        numbers::read_unsigned(digits_in(t), 10, u64::MAX as int),
        unit_millis(text::lowercase(text::trimmed(others_in(t)))),
    ) {
        (Some(v), Some(u)) => Some(v * u),
        _ => None,
    }
}

/// Whether the duration, if it is one, has a number of seconds that a `Duration` can hold.
pub open spec fn duration_fits(s: Seq<char>) -> bool {
    duration_millis(s) matches Some(ms) ==> ms / 1000 <= u64::MAX
}

/// The span of so many milliseconds.
pub open spec fn span(ms: int) -> Duration {
    Duration { secs: (ms / 1000) as u64, nanos: ((ms % 1000) * 1_000_000) as u32 }
}

/// The duration that a text stands for.
pub open spec fn duration_of(s: Seq<char>) -> Option<Duration> {
    match duration_millis(s) {
        Some(ms) => Some(span(ms)),
        None => None,
    }
}

fn millis_of_unit(u: &str) -> (r: Option<u64>)
    ensures
        r matches Some(v) ==> unit_millis(u@) == Some(v as int) && 1 <= v <= 86_400_000,
        r is None ==> unit_millis(u@) is None,
{
    if same_str(u, "ms") {
        Some(1)
    } else if same_str(u, "s") || same_str(u, "sec") || same_str(u, "secs") || same_str(u, "second") || same_str(
        u,
        "seconds",
    ) {
        Some(1000)
    } else if same_str(u, "m") || same_str(u, "min") || same_str(u, "mins") || same_str(u, "minute") || same_str(
        u,
        "minutes",
    ) {
        Some(60_000)
    } else if same_str(u, "h") || same_str(u, "hr") || same_str(u, "hrs") || same_str(u, "hour") || same_str(
        u,
        "hours",
    ) {
        Some(3_600_000)
    } else if same_str(u, "d") || same_str(u, "day") || same_str(u, "days") {
        Some(86_400_000)
    } else {
        None
    }
}

/// Reads the number and the unit of a duration.
fn read_millis(s: &str) -> (r: Option<u128>)
    ensures
        r matches Some(ms) ==> duration_millis(s@) == Some(ms as int),
        r is None ==> duration_millis(s@) is None,
{
    let v = chars_of(s);
    let t = strip(v.as_slice(), Class::Space);
    let mut number: Vec<char> = Vec::new();
    let mut unit: Vec<char> = Vec::new();
    let ghost is_digit = |c: char| Class::Digit.has(c);
    let ghost is_other = |c: char| !Class::Digit.has(c);
    let mut i: usize = 0;
    while i < t.len()
        invariant
            i <= t@.len(),
            is_digit == (|c: char| Class::Digit.has(c)),
            is_other == (|c: char| !Class::Digit.has(c)),
            number@ == t@.take(i as int).filter(is_digit),
            unit@ == t@.take(i as int).filter(is_other),
        decreases t@.len() - i,
    {
        let c: char = t[i];
        assert(t@.take(i + 1).drop_last() =~= t@.take(i as int));
        reveal(Seq::filter);
        if Class::Digit.test(c) {
            number.push(c);
        } else {
            unit.push(c);
        }
        i += 1;
    }
    assert(t@.take(i as int) =~= t@);
    let unit_text = strip(unit.as_slice(), Class::Space);
    let lower = to_lower(string_of(unit_text).as_str());
    match parse_unsigned(number.as_slice(), 10, u64::MAX) {
        Some(n) => match millis_of_unit(lower.as_str()) {
            Some(u) => {
                assert(n * u <= u64::MAX * 86_400_000) by (nonlinear_arith)
                    requires
                        0 <= n <= u64::MAX,
                        0 <= u <= 86_400_000,
                ;
                Some((n as u128) * (u as u128))
            },
            None => None,
        },
        None => None,
    }
}

/// Reads a duration such as `250ms`, `5m` or `2 hours`.
pub fn parse_duration(s: &str) -> (r: Option<Duration>)
    requires
        duration_fits(s@),
    ensures
        r == duration_of(s@),
{
    match read_millis(s) {
        Some(ms) => Some(Duration { secs: (ms / 1000) as u64, nanos: ((ms % 1000) as u32) * 1_000_000 }),
        None => None,
    }
}

/// Whether `parse_duration` takes this text.
pub fn duration_in_range(s: &str) -> (r: bool)
    ensures
        r == duration_fits(s@),
{
    match read_millis(s) {
        Some(ms) => ms / 1000 <= u64::MAX as u128,
        None => true,
    }
}

// ---------------------------------------------------------------------------
// Timestamps
// ---------------------------------------------------------------------------

/// The numbers of a timestamp.
#[derive(Clone, Copy)]
pub struct Stamp {
    pub year: i64,
    pub month: i64,
    pub day: i64,
    pub hour: i64,
    pub min: i64,
    pub sec: i64,
}

/// The first three numbers among the pieces.
pub open spec fn three_numbers(p: Seq<Seq<char>>) -> Option<(int, int, int)> {
    if p.len() < 3 {
        None
    } else {
        match (numbers::read_signed(p[0]), numbers::read_signed(p[1]), numbers::read_signed(p[2])) {
            (Some(a), Some(b), Some(c)) => Some((a, b, c)),
            _ => None,
        }
    }
}

/// The numbers of a text of the form `Y-M-DTh:m:s`, with a fraction and a `Z` or without.
pub open spec fn stamp_of(ts: Seq<char>) -> Option<Stamp> {
    match text::split_once(text::trim_end(ts, Class::Is('Z')), 'T') {
        None => None,
        Some((date, time)) => match (
            three_numbers(text::split(date, '-')),
            three_numbers(text::split(text::split(time, '.')[0], ':')),
        ) {
            (Some((y, m, d)), Some((hour, min, sec))) => Some(
                Stamp {
                    year: y as i64,
                    month: m as i64,
                    day: d as i64,
                    hour: hour as i64,
                    min: min as i64,
                    sec: sec as i64,
                },
            ),
            _ => None,
        },
    }
}

/// Division towards zero.
pub open spec fn quot(a: int, b: int) -> int {
    if a >= 0 {
        a / b
    } else {
        -((-a) / b)
    }
}

impl Stamp {
    /// The month counted from March.
    pub open spec fn march_month(self) -> int {
        if self.month <= 2 {
            self.month + 9
        } else {
            self.month - 3
        }
    }

    /// The year counted from March.
    pub open spec fn march_year(self) -> int {
        if self.month <= 2 {
            self.year - 1
        } else {
            self.year as int
        }
    }

    pub open spec fn era(self) -> int {
        quot(self.march_year(), 400)
    }

    pub open spec fn year_of_era(self) -> int {
        self.march_year() - self.era() * 400
    }

    pub open spec fn day_of_year(self) -> int {
        quot(153 * self.march_month() + 2, 5) + self.day - 1
    }

    pub open spec fn day_of_era(self) -> int {
        self.year_of_era() * 365 + quot(self.year_of_era(), 4) - quot(self.year_of_era(), 100) + self.day_of_year()
    }

    /// The days from 1970-01-01 to the date.
    pub open spec fn days(self) -> int {
        self.era() * 146097 + self.day_of_era() - 719468
    }

    /// The seconds from 1970-01-01T00:00:00 to the timestamp.
    pub open spec fn seconds(self) -> int {
        self.days() * 86400 + self.hour * 3600 + self.min * 60 + self.sec
    }

    /// Whether every number on the way to the seconds is one of 64 bits.
    pub open spec fn in_range(self) -> bool {
        &&& is_i64(self.march_month())
        &&& is_i64(self.march_year())
        &&& is_i64(153 * self.march_month())
        &&& is_i64(153 * self.march_month() + 2)
        &&& is_i64(quot(153 * self.march_month() + 2, 5) + self.day)
        &&& is_i64(self.day_of_year())
        &&& is_i64(self.day_of_era())
        &&& is_i64(self.era() * 146097)
        &&& is_i64(self.era() * 146097 + self.day_of_era())
        &&& is_i64(self.days())
        &&& is_i64(self.days() * 86400)
        &&& is_i64(self.hour * 3600)
        &&& is_i64(self.days() * 86400 + self.hour * 3600)
        &&& is_i64(self.min * 60)
        &&& is_i64(self.days() * 86400 + self.hour * 3600 + self.min * 60)
        &&& is_i64(self.seconds())
    }
}

pub open spec fn is_i64(x: int) -> bool {
    i64::MIN <= x <= i64::MAX
}

/// Whether the timestamp, if it is one, can be turned into seconds.
pub open spec fn timestamp_fits(ts: Seq<char>) -> bool {
    stamp_of(ts) matches Some(st) ==> st.in_range()
}

/// The seconds since 1970 that a timestamp stands for, unless it lies before.
pub open spec fn timestamp_secs(ts: Seq<char>) -> Option<int> {
    match stamp_of(ts) {
        Some(st) => if st.seconds() >= 0 {
            Some(st.seconds())
        } else {
            None
        },
        None => None,
    }
}

fn read_three(p: &Vec<&[char]>) -> (r: Option<(i64, i64, i64)>)
    ensures
        r matches Some(t) ==> three_numbers(text::views(p@)) == Some((t.0 as int, t.1 as int, t.2 as int)),
        r is None ==> three_numbers(text::views(p@)) is None,
{
    if p.len() < 3 {
        return None;
    }
    assert(text::views(p@)[0] == p@[0]@ && text::views(p@)[1] == p@[1]@ && text::views(p@)[2] == p@[2]@);
    match (parse_signed(p[0]), parse_signed(p[1]), parse_signed(p[2])) {
        (Some(a), Some(b), Some(c)) => Some((a, b, c)),
        _ => None,
    }
}

fn read_stamp(ts: &str) -> (r: Option<Stamp>)
    ensures
        r == stamp_of(ts@),
{
    let v = chars_of(ts);
    let clean = skip_end(v.as_slice(), Class::Is('Z'));
    match cut_at(clean, Class::Not('T')) {
        None => None,
        Some((date, time)) => {
            let d_parts = pieces(date, '-');
            let whole = pieces(time, '.');
            assert(text::views(whole@)[0] == whole@[0]@);
            let t_parts = pieces(whole[0], ':');
            match (read_three(&d_parts), read_three(&t_parts)) {
                (Some((year, month, day)), Some((hour, min, sec))) => Some(
                    Stamp { year, month, day, hour, min, sec },
                ),
                _ => None,
            }
        },
    }
}

pub(crate) fn divide(a: i64, b: i64) -> (r: i64)
    requires
        b >= 2,
    ensures
        r == quot(a as int, b as int),
{
    if a >= 0 {
        a / b
    } else {
        let q: i128 = (-(a as i128)) / (b as i128);
        assert(0 <= q <= -(a as int)) by (nonlinear_arith)
            requires
                q == (-(a as int)) / (b as int),
                a < 0,
                b >= 2,
        ;
        assert(2 * q <= -(a as int)) by (nonlinear_arith)
            requires
                q == (-(a as int)) / (b as int),
                a < 0,
                b >= 2,
        ;
        -(q as i64)
    }
}

/// The seconds since 1970 of a timestamp such as `2024-05-01T12:30:00.5Z`.
pub fn parse_timestamp_secs(ts: &str) -> (r: Option<u64>)
    requires
        timestamp_fits(ts@),
    ensures
        r matches Some(v) ==> timestamp_secs(ts@) == Some(v as int),
        r is None ==> timestamp_secs(ts@) is None,
{
    let st = match read_stamp(ts) {
        Some(st) => st,
        None => return None,
    };
    let m_adj: i64 = if st.month <= 2 {
        st.month + 9
    } else {
        st.month - 3
    };
    let y_adj: i64 = if st.month <= 2 {
        st.year - 1
    } else {
        st.year
    };
    let era: i64 = divide(y_adj, 400);
    let yoe: i64 = y_adj - era * 400;
    let doy: i64 = divide(153 * m_adj + 2, 5) + st.day - 1;
    let doe: i64 = yoe * 365 + divide(yoe, 4) - divide(yoe, 100) + doy;
    let days: i64 = era * 146097 + doe - 719468;
    let secs: i64 = days * 86400 + st.hour * 3600 + st.min * 60 + st.sec;
    if secs >= 0 {
        Some(secs as u64)
    } else {
        None
    }
}

fn fits_i64(x: i128) -> (r: bool)
    ensures
        r == is_i64(x as int),
{
    (i64::MIN as i128) <= x && x <= (i64::MAX as i128)
}

fn divide_wide(a: i128, b: i128) -> (r: i128)
    requires
        b >= 2,
        -0x1_0000_0000_0000_0000_0000_0000 <= a <= 0x1_0000_0000_0000_0000_0000_0000,
    ensures
        r == quot(a as int, b as int),
        -0x1_0000_0000_0000_0000_0000_0000 <= r <= 0x1_0000_0000_0000_0000_0000_0000,
{
    let m: i128 = if a >= 0 {
        a
    } else {
        -a
    };
    let q: i128 = m / b;
    assert(0 <= q <= m) by (nonlinear_arith)
        requires
            q == (m as int) / (b as int),
            m >= 0,
            b >= 2,
    ;
    if a >= 0 {
        q
    } else {
        -q
    }
}

/// Whether `parse_timestamp_secs` takes this text.
pub fn timestamp_in_range(ts: &str) -> (r: bool)
    ensures
        r == timestamp_fits(ts@),
{
    let st = match read_stamp(ts) {
        Some(st) => st,
        None => return true,
    };
    let m_adj: i128 = if st.month <= 2 {
        st.month as i128 + 9
    } else {
        st.month as i128 - 3
    };
    let y_adj: i128 = if st.month <= 2 {
        st.year as i128 - 1
    } else {
        st.year as i128
    };
    let era: i128 = divide_wide(y_adj, 400);
    assert(-0x1_0000_0000_0000_0000 <= era <= 0x1_0000_0000_0000_0000);
    let yoe: i128 = y_adj - era * 400;
    let scaled: i128 = 153 * m_adj;
    let counted: i128 = divide_wide(scaled + 2, 5) + st.day as i128;
    let doy: i128 = counted - 1;
    let doe: i128 = yoe * 365 + divide_wide(yoe, 4) - divide_wide(yoe, 100) + doy;
    let era_days: i128 = era * 146097;
    let days: i128 = era_days + doe - 719468;
    let day_secs: i128 = days * 86400;
    let hour_secs: i128 = st.hour as i128 * 3600;
    let min_secs: i128 = st.min as i128 * 60;
    let secs: i128 = day_secs + hour_secs + min_secs + st.sec as i128;
    fits_i64(m_adj) && fits_i64(y_adj) && fits_i64(scaled) && fits_i64(scaled + 2) && fits_i64(counted) && fits_i64(
        doy,
    ) && fits_i64(doe) && fits_i64(era_days) && fits_i64(era_days + doe) && fits_i64(days) && fits_i64(day_secs)
        && fits_i64(hour_secs) && fits_i64(day_secs + hour_secs) && fits_i64(min_secs) && fits_i64(
        day_secs + hour_secs + min_secs,
    ) && fits_i64(secs)
}

} // verus!
