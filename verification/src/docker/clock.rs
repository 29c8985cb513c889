//! Dates of log lines: their normal form, and dates out of the engine's clock.

use crate::numbers::{self, push_filled};
use crate::query::time::{self, divide, Stamp};
use crate::text::{self, chars_of, cut_at, skip_end, string_of, Class};
use vstd::prelude::*;

verus! {

/// The fraction of a second with exactly nine digits.
pub open spec fn nine_digits(frac: Seq<char>) -> Seq<char> {
    let d = time::digits_in(frac);
    if d.len() > 9 {
        d.take(9)
    } else {
        d + Seq::new((9 - d.len()) as nat, |i: int| '0')
    }
}

/// The normal form of a date: a fraction of nine digits and a `Z`.
pub open spec fn normalized(ts: Seq<char>) -> Seq<char> {
    let clean = text::trim_end(ts, Class::Is('Z'));
    match text::split_once(clean, '.') {
        Some((main, frac)) => main + seq!['.'] + nine_digits(frac) + seq!['Z'],
        None => clean + ".000000000Z"@,
    }
}

pub fn normalize_ts(ts: &str) -> (r: String)
    ensures
        r@ == normalized(ts@),
{
    let v = chars_of(ts);
    let clean = skip_end(v.as_slice(), Class::Is('Z'));
    let mut out: Vec<char> = Vec::new();
    match cut_at(clean, Class::Not('.')) {
        Some((main, frac)) => {
            let ghost is_digit = |c: char| Class::Digit.has(c);
            let mut digits: Vec<char> = Vec::new();
            let mut i: usize = 0;
            while i < frac.len()
                invariant
                    i <= frac@.len(),
                    is_digit == (|c: char| Class::Digit.has(c)),
                    digits@ == frac@.take(i as int).filter(is_digit),
                decreases frac@.len() - i,
            {
                assert(frac@.take(i + 1).drop_last() =~= frac@.take(i as int));
                reveal(Seq::filter);
                if Class::Digit.test(frac[i]) {
                    digits.push(frac[i]);
                }
                i += 1;
            }
            assert(frac@.take(i as int) =~= frac@);
            let ghost all = digits@;
            if digits.len() > 9 {
                digits.truncate(9);
            } else {
                while digits.len() < 9
                    invariant
                        all.len() <= digits@.len() <= 9,
                        digits@ == all + Seq::new((digits@.len() - all.len()) as nat, |i: int| '0'),
                    decreases 9 - digits@.len(),
                {
                    digits.push('0');
                    assert(digits@ =~= all + Seq::new((digits@.len() - all.len()) as nat, |i: int| '0'));
                }
            }
            assert(digits@ =~= nine_digits(frac@));
            out.extend_from_slice(main);
            out.push('.');
            out.append(&mut digits);
            out.push('Z');
            assert(out@ =~= normalized(ts@));
        },
        None => {
            let mut tail = chars_of(".000000000Z");
            out.extend_from_slice(clean);
            out.append(&mut tail);
            assert(out@ =~= normalized(ts@));
        },
    }
    string_of(out.as_slice())
}

/// A text is cut at the first mark.
pub proof fn lemma_cut_at_mark(main: Seq<char>, c: char, rest: Seq<char>)
    requires
        !main.contains(c),
    ensures
        text::split_once(main + seq![c] + rest, c) == Some((main, rest)),
{
    let s = main + seq![c] + rest;
    let e = main.len() as int;
    assert forall|j: int| 0 <= j < e implies Class::Not(c).has(#[trigger] s[j]) by {
        assert(s[j] == main[j]);
        assert(main.contains(main[j]));
    }
    lemma_run_over(s, 0, e, Class::Not(c));
    assert(s.take(e) =~= main);
    assert(s.skip(e + 1) =~= rest);
}

/// A run of characters of a class reaches to the first other character.
proof fn lemma_run_over(s: Seq<char>, i: int, e: int, k: Class)
    requires
        0 <= i <= e < s.len(),
        forall|j: int| i <= j < e ==> k.has(#[trigger] s[j]),
        !k.has(s[e]),
    ensures
        text::run_end(s, i, k) == e,
    decreases e - i,
{
    if i < e {
        assert(k.has(s[i]));
        lemma_run_over(s, i + 1, e, k);
    }
}

proof fn lemma_digits_only(d: Seq<char>)
    requires
        forall|i: int| 0 <= i < d.len() ==> Class::Digit.has(#[trigger] d[i]),
    ensures
        time::digits_in(d) == d,
    decreases d.len(),
{
    reveal(Seq::filter);
    if d.len() > 0 {
        lemma_digits_only(d.drop_last());
        assert(d.drop_last().push(d.last()) =~= d);
    }
}

proof fn lemma_digits_in(s: Seq<char>)
    ensures
        forall|i: int| 0 <= i < time::digits_in(s).len() ==> Class::Digit.has(#[trigger] time::digits_in(s)[i]),
    decreases s.len(),
{
    reveal(Seq::filter);
    if s.len() > 0 {
        lemma_digits_in(s.drop_last());
    }
}

proof fn lemma_head_has_none(s: Seq<char>, c: char)
    ensures
        text::split_once(s, c) matches Some((head, _)) ==> !head.contains(c),
        text::split_once(s, c) is None ==> !s.contains(c),
{
    text::lemma_run_end(s, 0, Class::Not(c));
    let n = text::run_end(s, 0, Class::Not(c));
    if n < s.len() {
        assert(!s.take(n).contains(c));
    }
}

/// The normal form is its own normal form.
pub proof fn law_normal_form_stays(ts: Seq<char>)
    ensures
        normalized(normalized(ts)) == normalized(ts),
{
    let clean = text::trim_end(ts, Class::Is('Z'));
    lemma_head_has_none(clean, '.');
    reveal_strlit(".000000000Z");
    let (main, nine) = match text::split_once(clean, '.') {
        Some((main, frac)) => (main, nine_digits(frac)),
        None => (clean, Seq::new(9, |i: int| '0')),
    };
    assert(normalized(ts) =~= main + seq!['.'] + nine + seq!['Z']);
    assert(nine.len() == 9 && forall|i: int| 0 <= i < 9 ==> Class::Digit.has(#[trigger] nine[i])) by {
        match text::split_once(clean, '.') {
            Some((_, frac)) => lemma_digits_in(frac),
            None => {},
        }
    }
    let n = normalized(ts);
    let body = main + seq!['.'] + nine;
    assert(text::run_start(n, n.len() as int, Class::Is('Z')) == n.len() - 1) by {
        reveal_with_fuel(text::run_start, 2);
        assert(n[n.len() - 1] == 'Z');
        assert(n[n.len() - 2] == nine[8]);
    }
    assert(n.take(n.len() - 1) =~= body);
    lemma_cut_at_mark(main, '.', nine);
    lemma_digits_only(nine);
    assert(nine_digits(nine) =~= nine);
}

// ---------------------------------------------------------------------------
// From the clock to a date
// ---------------------------------------------------------------------------

/// A day counted from the first of March of the year zero.
pub struct Civil {
    pub era: int,
    pub yoe: int,
    pub doy: int,
    pub mp: int,
}

impl Civil {
    pub open spec fn of(days: int) -> Civil {
        let era = days / 146097;
        let doe = days % 146097;
        let yoe = (doe - doe / 1460 + doe / 36524 - doe / 146096) / 365;
        let doy = doe - (365 * yoe + yoe / 4 - yoe / 100);
        Civil { era, yoe, doy, mp: (5 * doy + 2) / 153 }
    }

    pub open spec fn day(self) -> int {
        self.doy - (153 * self.mp + 2) / 5 + 1
    }

    pub open spec fn month(self) -> int {
        if self.mp < 10 {
            self.mp + 3
        } else {
            self.mp - 9
        }
    }

    pub open spec fn year(self) -> int {
        self.yoe + self.era * 400 + (if self.month() <= 2 {
            1int
        } else {
            0int
        })
    }
}

proof fn lemma_year_of_era(doe: int)
    requires
        0 <= doe <= 146096,
    ensures
        ({
            let yoe = (doe - doe / 1460 + doe / 36524 - doe / 146096) / 365;
            let doy = doe - (365 * yoe + yoe / 4 - yoe / 100);
            &&& 0 <= yoe <= 399
            &&& 0 <= doy <= 365
        }),
{
}

proof fn lemma_month(doy: int)
    requires
        0 <= doy <= 365,
    ensures
        ({
            let mp = (5 * doy + 2) / 153;
            &&& 0 <= mp <= 11
            &&& 1 <= doy - (153 * mp + 2) / 5 + 1 <= 31
        }),
{
}

/// A number of at least `width` digits.
pub open spec fn filled(n: int, width: int) -> Seq<char> {
    numbers::zero_filled(numbers::decimal(n as nat), width)
}

/// The parts of the date that lies `nanos` nanoseconds after 1970 began.
pub struct Moment {
    pub days: int,
    pub time: int,
    pub nsec: int,
}

impl Moment {
    /// Division is towards zero; a negative time of day is taken from the next day's start.
    pub open spec fn of(nanos: int) -> Moment {
        let secs = time::quot(nanos, 1_000_000_000);
        let rest = nanos - secs * 1_000_000_000;
        let days = time::quot(secs, 86400);
        let left = secs - days * 86400;
        Moment {
            days: days + 719468,
            time: if left < 0 {
                left + 86400
            } else {
                left
            },
            nsec: if rest < 0 {
                -rest
            } else {
                rest
            },
        }
    }

    pub open spec fn date(self) -> Seq<char> {
        let c = Civil::of(self.days);
        filled(c.year(), 4) + seq!['-'] + (filled(c.month(), 2) + seq!['-'] + filled(c.day(), 2))
    }

    pub open spec fn clock(self) -> Seq<char> {
        filled(self.time / 3600, 2) + seq![':'] + (filled((self.time % 3600) / 60, 2) + seq![':'] + filled(
            self.time % 60,
            2,
        ))
    }

    /// The date in its normal form.
    pub open spec fn text(self) -> Seq<char> {
        self.date() + seq!['T'] + (self.clock() + seq!['.'] + filled(self.nsec, 9)) + seq!['Z']
    }
}

/// The day, the time of day and the fraction of a point in time.
fn split_nanos(nanos: i64) -> (r: (i64, i64, i64))
    ensures
        ({
            let m = Moment::of(nanos as int);
            &&& r.0 == m.days
            &&& r.1 == m.time
            &&& r.2 == m.nsec
        }),
        0 < r.0 < 1_000_000,
        0 <= r.1 < 86400,
        0 <= r.2 < 1_000_000_000,
{
    let secs: i64 = divide(nanos, 1_000_000_000);
    let rest: i64 = nanos - secs * 1_000_000_000;
    let days: i64 = divide(secs, 86400);
    let left: i64 = secs - days * 86400;
    (
        days + 719468,
        if left < 0 {
            left + 86400
        } else {
            left
        },
        if rest < 0 {
            -rest
        } else {
            rest
        },
    )
}

/// The year, the month and the day of the month.
fn civil_of(days: i64) -> (r: (i64, i64, i64))
    requires
        0 < days < 1_000_000,
    ensures
        ({
            let c = Civil::of(days as int);
            &&& r.0 == c.year()
            &&& r.1 == c.month()
            &&& r.2 == c.day()
        }),
        r.0 >= 0,
        r.1 >= 0,
        r.2 >= 0,
{
    let era: i64 = days / 146097;
    let doe: i64 = days % 146097;
    proof {
        lemma_year_of_era(doe as int);
    }
    let yoe: i64 = (doe - doe / 1460 + doe / 36524 - doe / 146096) / 365;
    let doy: i64 = doe - (365 * yoe + yoe / 4 - yoe / 100);
    proof {
        lemma_month(doy as int);
    }
    let mp: i64 = (5 * doy + 2) / 153;
    let day: i64 = doy - (153 * mp + 2) / 5 + 1;
    let month: i64 = if mp < 10 {
        mp + 3
    } else {
        mp - 9
    };
    let turn: i64 = if month <= 2 {
        1
    } else {
        0
    };
    (yoe + era * 400 + turn, month, day)
}

/// Three numbers with a mark between them.
fn write_three(a: u64, width: usize, b: u64, c: u64, mark: char) -> (r: Vec<char>)
    ensures
        r@ == filled(a as int, width as int) + seq![mark] + (filled(b as int, 2) + seq![mark] + filled(c as int, 2)),
{
    let mut out: Vec<char> = Vec::new();
    push_filled(&mut out, a, width);
    out.push(mark);
    push_filled(&mut out, b, 2);
    out.push(mark);
    push_filled(&mut out, c, 2);
    assert(out@ =~= filled(a as int, width as int) + seq![mark] + (filled(b as int, 2) + seq![mark] + filled(
        c as int,
        2,
    )));
    out
}

/// The date of a point in time that is given in nanoseconds since 1970.
pub fn unix_nanos_to_normalized_rfc3339(nanos: i64) -> (r: String)
    ensures
        r@ == Moment::of(nanos as int).text(),
{
    let (days, time, nsec) = split_nanos(nanos);
    let (year, month, day) = civil_of(days);
    let ghost m = Moment::of(nanos as int);
    let mut out = write_three(year as u64, 4, month as u64, day as u64, '-');
    assert(out@ == m.date());
    let mut clock = write_three((time / 3600) as u64, 2, ((time % 3600) / 60) as u64, (time % 60) as u64, ':');
    assert(clock@ == m.clock());
    out.push('T');
    out.append(&mut clock);
    out.push('.');
    push_filled(&mut out, nsec as u64, 9);
    out.push('Z');
    assert(out@ =~= m.text());
    string_of(out.as_slice())
}

/// A number with leading zeros holds only digits and reads as itself.
proof fn lemma_filled(n: int, width: int)
    requires
        0 <= n <= i64::MAX,
        width >= 1,
    ensures
        filled(n, width).len() >= width,
        forall|i: int| 0 <= i < filled(n, width).len() ==> '0' <= #[trigger] filled(n, width)[i] <= '9',
        numbers::numeral(filled(n, width), 10) == n,
        numbers::read_signed(filled(n, width)) == Some(n),
{
    let d = numbers::decimal(n as nat);
    numbers::lemma_decimal(n as nat);
    let f = filled(n, width);
    if d.len() < width {
        let z = Seq::new((width - d.len()) as nat, |i: int| '0');
        assert(f == z + d);
        assert forall|i: int| 0 <= i < f.len() implies '0' <= #[trigger] f[i] <= '9' by {
            if i >= z.len() {
                assert(f[i] == d[i - z.len()]);
            }
        }
        lemma_leading_zeros(z, d);
    }
    assert(numbers::all_digits(f, 10));
    assert('0' <= f[0] <= '9');
}

proof fn lemma_leading_zeros(z: Seq<char>, d: Seq<char>)
    requires
        forall|i: int| 0 <= i < z.len() ==> #[trigger] z[i] == '0',
    ensures
        numbers::numeral(z + d, 10) == numbers::numeral(d, 10),
    decreases z.len() + d.len(),
{
    if d.len() > 0 {
        assert((z + d).drop_last() =~= z + d.drop_last());
        lemma_leading_zeros(z, d.drop_last());
    } else if z.len() > 0 {
        assert((z + d).drop_last() =~= z.drop_last() + d);
        lemma_leading_zeros(z.drop_last(), d);
    }
}

proof fn lemma_split_last(a: Seq<char>, c: char)
    requires
        !a.contains(c),
    ensures
        text::split(a, c) == seq![a],
{
    text::lemma_run_end(a, 0, Class::Not(c));
    let n = text::run_end(a, 0, Class::Not(c));
    if n < a.len() {
        assert(a.contains(a[n]));
    }
}

proof fn lemma_split_first(a: Seq<char>, c: char, b: Seq<char>)
    requires
        !a.contains(c),
    ensures
        text::split(a + seq![c] + b, c) == seq![a] + text::split(b, c),
{
    lemma_cut_at_mark(a, c, b);
}

/// Three numbers between two marks are read as those numbers.
proof fn lemma_three(a: Seq<char>, b: Seq<char>, d: Seq<char>, mark: char, x: int, y: int, z: int)
    requires
        !a.contains(mark),
        !b.contains(mark),
        !d.contains(mark),
        numbers::read_signed(a) == Some(x),
        numbers::read_signed(b) == Some(y),
        numbers::read_signed(d) == Some(z),
    ensures
        time::three_numbers(text::split(a + seq![mark] + (b + seq![mark] + d), mark)) == Some((x, y, z)),
{
    lemma_split_first(a, mark, b + seq![mark] + d);
    lemma_split_first(b, mark, d);
    lemma_split_last(d, mark);
    let p = text::split(a + seq![mark] + (b + seq![mark] + d), mark);
    assert(p =~= seq![a, b, d]);
}

proof fn lemma_digits_lack(f: Seq<char>, c: char)
    requires
        forall|i: int| 0 <= i < f.len() ==> '0' <= #[trigger] f[i] <= '9',
        c < '0' || c > '9',
    ensures
        !f.contains(c),
{
}

proof fn lemma_joined_lack(a: Seq<char>, m: char, b: Seq<char>, n: char, d: Seq<char>, c: char)
    requires
        !a.contains(c),
        !b.contains(c),
        !d.contains(c),
        c != m,
        c != n,
    ensures
        !(a + seq![m] + (b + seq![n] + d)).contains(c),
{
    let s = a + seq![m] + (b + seq![n] + d);
    assert forall|i: int| 0 <= i < s.len() implies s[i] != c by {
        if i < a.len() {
            assert(s[i] == a[i]);
            assert(a.contains(a[i]));
        } else if i == a.len() {
        } else if i < a.len() + 1 + b.len() {
            assert(s[i] == b[i - a.len() - 1]);
            assert(b.contains(b[i - a.len() - 1]));
        } else if i == a.len() + 1 + b.len() {
        } else {
            let k = i - a.len() - 2 - b.len();
            assert(s[i] == d[k]);
            assert(d.contains(d[k]));
        }
    }
}

/// Three numbers with a mark between them are read as those numbers, and hold no other mark.
proof fn lemma_three_filled(x: int, width: int, y: int, z: int, mark: char, other: char)
    requires
        0 <= x <= i64::MAX,
        0 <= y <= i64::MAX,
        0 <= z <= i64::MAX,
        width >= 1,
        mark < '0' || mark > '9',
        other < '0' || other > '9',
        mark != other,
    ensures
        ({
            let s = filled(x, width) + seq![mark] + (filled(y, 2) + seq![mark] + filled(z, 2));
            &&& time::three_numbers(text::split(s, mark)) == Some((x, y, z))
            &&& !s.contains(other)
        }),
{
    let a = filled(x, width);
    let b = filled(y, 2);
    let d = filled(z, 2);
    lemma_filled(x, width);
    lemma_filled(y, 2);
    lemma_filled(z, 2);
    lemma_digits_lack(a, mark);
    lemma_digits_lack(b, mark);
    lemma_digits_lack(d, mark);
    lemma_digits_lack(a, other);
    lemma_digits_lack(b, other);
    lemma_digits_lack(d, other);
    lemma_three(a, b, d, mark, x, y, z);
    lemma_joined_lack(a, mark, b, mark, d, other);
}

/// A date in normal form is read as its numbers.
proof fn lemma_stamp(st: Stamp, nsec: int)
    requires
        st.year >= 0,
        st.month >= 0,
        st.day >= 0,
        st.hour >= 0,
        st.min >= 0,
        st.sec >= 0,
        0 <= nsec <= i64::MAX,
    ensures
        ({
            let date = filled(st.year as int, 4) + seq!['-'] + (filled(st.month as int, 2) + seq!['-'] + filled(
                st.day as int,
                2,
            ));
            let clock = filled(st.hour as int, 2) + seq![':'] + (filled(st.min as int, 2) + seq![':'] + filled(
                st.sec as int,
                2,
            ));
            time::stamp_of(date + seq!['T'] + (clock + seq!['.'] + filled(nsec, 9)) + seq!['Z']) == Some(st)
        }),
{
    let date = filled(st.year as int, 4) + seq!['-'] + (filled(st.month as int, 2) + seq!['-'] + filled(
        st.day as int,
        2,
    ));
    let clock = filled(st.hour as int, 2) + seq![':'] + (filled(st.min as int, 2) + seq![':'] + filled(
        st.sec as int,
        2,
    ));
    let nano = filled(nsec, 9);
    lemma_three_filled(st.year as int, 4, st.month as int, st.day as int, '-', 'T');
    lemma_three_filled(st.hour as int, 2, st.min as int, st.sec as int, ':', '.');
    lemma_filled(nsec, 9);
    let text = date + seq!['T'] + (clock + seq!['.'] + nano) + seq!['Z'];
    let body = date + seq!['T'] + (clock + seq!['.'] + nano);
    assert(text::trim_end(text, Class::Is('Z')) == body) by {
        reveal_with_fuel(text::run_start, 2);
        let n = text.len() as int;
        assert(text[n - 1] == 'Z');
        assert(text[n - 2] == nano[nano.len() - 1]);
        assert(text.take(n - 1) =~= body);
    }
    lemma_cut_at_mark(date, 'T', clock + seq!['.'] + nano);
    lemma_split_first(clock, '.', nano);
    assert(text::split(clock + seq!['.'] + nano, '.')[0] == clock);
}

/// A day is found again from its year, month and day of the month.
proof fn lemma_day_found(days: int, st: Stamp)
    requires
        719468 <= days < 1_000_000,
        st.year == Civil::of(days).year(),
        st.month == Civil::of(days).month(),
        st.day == Civil::of(days).day(),
    ensures
        st.days() == days - 719468,
        st.era() == days / 146097,
        st.day_of_era() == days % 146097,
        0 <= st.march_month() <= 11,
        0 <= st.march_year() < 10000,
        0 <= st.day_of_year() <= 365,
{
    let c = Civil::of(days);
    lemma_year_of_era(days % 146097);
    lemma_month(c.doy);
    assert(st.march_month() == c.mp);
    assert(st.march_year() == c.yoe + c.era * 400);
    assert(st.era() == c.era);
    assert(st.year_of_era() == c.yoe);
    assert(st.day_of_year() == c.doy);
}

/// The date made of a point in time after 1970 reads as that point in time, to the second.
pub proof fn law_clock_reads_back(nanos: int)
    requires
        0 <= nanos <= i64::MAX,
    ensures
        time::timestamp_fits(Moment::of(nanos).text()),
        time::timestamp_secs(Moment::of(nanos).text()) == Some(nanos / 1_000_000_000),
{
    let m = Moment::of(nanos);
    let c = Civil::of(m.days);
    let secs = nanos / 1_000_000_000;
    assert(m.days == secs / 86400 + 719468 && m.time == secs % 86400);
    lemma_year_of_era(m.days % 146097);
    lemma_month(c.doy);
    let st = Stamp {
        year: c.year() as i64,
        month: c.month() as i64,
        day: c.day() as i64,
        hour: (m.time / 3600) as i64,
        min: ((m.time % 3600) / 60) as i64,
        sec: (m.time % 60) as i64,
    };
    lemma_stamp(st, m.nsec);
    assert(time::stamp_of(m.text()) == Some(st));
    lemma_day_found(m.days, st);
    assert(st.hour * 3600 + st.min * 60 + st.sec == m.time);
    assert(st.seconds() == secs);
}

// ---------------------------------------------------------------------------
// The order of dates
// ---------------------------------------------------------------------------

/// At the first place where the texts differ, the first one has the lesser character.
pub open spec fn before(s: Seq<char>, t: Seq<char>) -> bool {
    exists|k: int| #[trigger] differs_at(s, t, k)
}

pub open spec fn differs_at(s: Seq<char>, t: Seq<char>, k: int) -> bool {
    &&& 0 <= k < s.len()
    &&& k < t.len()
    &&& s.take(k) == t.take(k)
    &&& s[k] < t[k]
}

proof fn lemma_before_in_order(s: Seq<char>, t: Seq<char>)
    requires
        before(s, t),
    ensures
        text::lex_le(s, t),
        s != t,
{
    let k = choose|k: int| #[trigger] differs_at(s, t, k);
    lemma_order_from(s, t, 0, k);
}

proof fn lemma_order_from(s: Seq<char>, t: Seq<char>, i: int, k: int)
    requires
        0 <= i <= k,
        differs_at(s, t, k),
    ensures
        text::lex_le_from(s, t, i),
    decreases k - i,
{
    if i < k {
        assert(s.take(k)[i] == t.take(k)[i]);
        lemma_order_from(s, t, i + 1, k);
    }
}

/// What follows does not matter.
proof fn lemma_before_head(s: Seq<char>, t: Seq<char>, u: Seq<char>, v: Seq<char>)
    requires
        before(s, t),
    ensures
        before(s + u, t + v),
{
    let k = choose|k: int| #[trigger] differs_at(s, t, k);
    assert((s + u).take(k) =~= s.take(k));
    assert((t + v).take(k) =~= t.take(k));
    assert(differs_at(s + u, t + v, k));
}

/// What both begin with does not matter.
proof fn lemma_before_tail(s: Seq<char>, u: Seq<char>, v: Seq<char>)
    requires
        before(u, v),
    ensures
        before(s + u, s + v),
{
    let k = choose|k: int| #[trigger] differs_at(u, v, k);
    assert((s + u).take(s.len() + k) =~= s + u.take(k));
    assert((s + v).take(s.len() + k) =~= s + v.take(k));
    assert(differs_at(s + u, s + v, s.len() + k));
}

/// Digits in equal number are ordered as the numbers that they write.
proof fn lemma_digits_order(f: Seq<char>, g: Seq<char>)
    requires
        f.len() == g.len(),
        forall|i: int| 0 <= i < f.len() ==> '0' <= #[trigger] f[i] <= '9',
        forall|i: int| 0 <= i < g.len() ==> '0' <= #[trigger] g[i] <= '9',
    ensures
        numbers::numeral(f, 10) == numbers::numeral(g, 10) ==> f == g,
        numbers::numeral(f, 10) < numbers::numeral(g, 10) ==> before(f, g),
    decreases f.len(),
{
    if f.len() > 0 {
        let n = f.len() - 1;
        let (p, q) = (f.drop_last(), g.drop_last());
        assert forall|i: int| 0 <= i < n implies '0' <= #[trigger] p[i] <= '9' && '0' <= q[i] <= '9' by {
            assert(p[i] == f[i] && q[i] == g[i]);
        }
        assert forall|i: int| 0 <= i < n implies '0' <= #[trigger] q[i] <= '9' by {
            assert(q[i] == g[i]);
        }
        lemma_digits_order(p, q);
        lemma_digits_order(q, p);
        assert('0' <= f[n] <= '9' && '0' <= g[n] <= '9');
        let (x, y) = (numbers::numeral(p, 10), numbers::numeral(q, 10));
        if numbers::numeral(f, 10) == numbers::numeral(g, 10) {
            assert(x == y);
            assert(f =~= p.push(f[n]));
            assert(g =~= q.push(g[n]));
        } else if numbers::numeral(f, 10) < numbers::numeral(g, 10) {
            if x < y {
                lemma_before_head(p, q, seq![f[n]], seq![g[n]]);
                assert(p + seq![f[n]] =~= f);
                assert(q + seq![g[n]] =~= g);
            } else {
                assert(x == y);
                assert(f.take(n) =~= p);
                assert(g.take(n) =~= q);
                assert(differs_at(f, g, n));
            }
        }
    }
}

/// The least number of more than `width` digits.
pub open spec fn ten_to(width: int) -> int
    decreases width,
{
    if width <= 0 {
        1
    } else {
        10 * ten_to(width - 1)
    }
}

proof fn lemma_decimal_width(n: nat, width: int)
    requires
        width >= 1,
        n < ten_to(width),
    ensures
        numbers::decimal(n).len() <= width,
    decreases width,
{
    reveal_with_fuel(ten_to, 2);
    if n >= 10 {
        lemma_decimal_width(n / 10, width - 1);
    }
}

/// A number of no more digits than the width has that width.
proof fn lemma_filled_width(n: int, width: int)
    requires
        0 <= n < ten_to(width),
        width >= 1,
    ensures
        filled(n, width).len() == width,
{
    lemma_decimal_width(n as nat, width);
}

proof fn lemma_filled_order(x: int, y: int, width: int)
    requires
        0 <= x < y < ten_to(width),
        y <= i64::MAX,
        width >= 1,
    ensures
        before(filled(x, width), filled(y, width)),
{
    lemma_filled_width(x, width);
    lemma_filled_width(y, width);
    lemma_filled(x, width);
    lemma_filled(y, width);
    lemma_digits_order(filled(x, width), filled(y, width));
}

/// Two triples of numbers stand in the order of the first numbers that differ.
pub open spec fn triple_before(a: (int, int, int), b: (int, int, int)) -> bool {
    a.0 < b.0 || (a.0 == b.0 && (a.1 < b.1 || (a.1 == b.1 && a.2 < b.2)))
}

/// Three numbers with a mark between them, the first of the given width.
pub open spec fn joined(a: (int, int, int), width: int, mark: char) -> Seq<char> {
    filled(a.0, width) + seq![mark] + (filled(a.1, 2) + seq![mark] + filled(a.2, 2))
}

proof fn lemma_joined_order(a: (int, int, int), b: (int, int, int), width: int, mark: char)
    requires
        triple_before(a, b),
        2 <= width <= 4,
        0 <= a.0 && 0 <= b.0 < ten_to(width),
        0 <= a.1 < 100 && 0 <= b.1 < 100,
        0 <= a.2 < 100 && 0 <= b.2 < 100,
    ensures
        before(joined(a, width, mark), joined(b, width, mark)),
{
    reveal_with_fuel(ten_to, 5);
    let (u, v) = (filled(a.1, 2) + seq![mark] + filled(a.2, 2), filled(b.1, 2) + seq![mark] + filled(b.2, 2));
    if a.0 < b.0 {
        let (s, t) = (filled(a.0, width), filled(b.0, width));
        lemma_filled_order(a.0, b.0, width);
        lemma_before_head(s, t, seq![mark], seq![mark]);
        lemma_before_head(s + seq![mark], t + seq![mark], u, v);
    } else {
        if a.1 < b.1 {
            let (s, t) = (filled(a.1, 2), filled(b.1, 2));
            lemma_filled_order(a.1, b.1, 2);
            lemma_before_head(s, t, seq![mark], seq![mark]);
            lemma_before_head(s + seq![mark], t + seq![mark], filled(a.2, 2), filled(b.2, 2));
        } else {
            lemma_filled_order(a.2, b.2, 2);
            lemma_before_tail(filled(a.1, 2) + seq![mark], filled(a.2, 2), filled(b.2, 2));
        }
        lemma_before_tail(filled(a.0, width) + seq![mark], u, v);
    }
}

impl Civil {
    /// The year, the month and the day of the month.
    pub open spec fn fields(self) -> (int, int, int) {
        (self.year(), self.month(), self.day())
    }
}

/// The days of the years before the `n`-th of an era.
spec fn year_start(n: int) -> int {
    365 * n + n / 4 - n / 100
}

/// A date has its numbers in range.
proof fn lemma_civil_range(days: int)
    requires
        0 <= days < 1_000_000,
    ensures
        ({
            let c = Civil::of(days);
            &&& 0 <= c.era <= 6
            &&& 0 <= c.yoe <= 399
            &&& 0 <= c.doy <= 365
            &&& 0 <= c.mp <= 11
            &&& days == c.era * 146097 + year_start(c.yoe) + c.doy
            &&& 0 <= c.year() < 10000
            &&& 1 <= c.month() <= 12
            &&& 1 <= c.day() <= 31
        }),
{
    lemma_year_of_era(days % 146097);
    lemma_month(Civil::of(days).doy);
}

proof fn lemma_year_start(m: int, n: int)
    requires
        0 <= m < n,
    ensures
        year_start(m) + 365 <= year_start(n),
{
}

/// A later day has a later date.
proof fn lemma_civil_order(d: int, e: int)
    requires
        0 <= d < e < 1_000_000,
    ensures
        triple_before(Civil::of(d).fields(), Civil::of(e).fields()),
{
    let (a, b) = (Civil::of(d), Civil::of(e));
    lemma_civil_range(d);
    lemma_civil_range(e);
    assert(a.era <= b.era);
    if a.era == b.era {
        if b.yoe < a.yoe {
            lemma_year_start(b.yoe, a.yoe);
        } else if a.yoe == b.yoe {
            assert(a.doy < b.doy);
            assert(a.mp <= b.mp);
        }
    }
}

/// Of two points in time, the parts of the earlier one come first.
proof fn lemma_moment(a: int, b: int)
    requires
        0 <= a < b <= i64::MAX,
    ensures
        ({
            let (m, n) = (Moment::of(a), Moment::of(b));
            &&& triple_before((m.days, m.time, m.nsec), (n.days, n.time, n.nsec))
            &&& 0 <= m.days < 1_000_000 && 0 <= n.days < 1_000_000
            &&& 0 <= m.time < 86400 && 0 <= n.time < 86400
            &&& 0 <= m.nsec < 1_000_000_000 && 0 <= n.nsec < 1_000_000_000
        }),
{
    let (s, t) = (a / 1_000_000_000, b / 1_000_000_000);
    assert(s <= t);
    assert(s / 86400 <= t / 86400);
}

impl Moment {
    /// The hour, the minute and the second.
    pub open spec fn time_fields(self) -> (int, int, int) {
        (self.time / 3600, (self.time % 3600) / 60, self.time % 60)
    }
}

/// A later day is written later.
proof fn lemma_date_order(m: Moment, n: Moment)
    requires
        0 <= m.days < n.days < 1_000_000,
    ensures
        before(m.date(), n.date()),
{
    lemma_civil_order(m.days, n.days);
    lemma_civil_range(m.days);
    lemma_civil_range(n.days);
    assert(ten_to(4) == 10000) by {
        reveal_with_fuel(ten_to, 5);
    }
    lemma_joined_order(Civil::of(m.days).fields(), Civil::of(n.days).fields(), 4, '-');
}

/// A later time of day is written later.
proof fn lemma_time_order(m: Moment, n: Moment)
    requires
        0 <= m.time < n.time < 86400,
    ensures
        before(m.clock(), n.clock()),
{
    assert(ten_to(2) == 100) by {
        reveal_with_fuel(ten_to, 3);
    }
    lemma_joined_order(m.time_fields(), n.time_fields(), 2, ':');
}

proof fn lemma_nanos_order(m: Moment, n: Moment)
    requires
        0 <= m.nsec < n.nsec < 1_000_000_000,
    ensures
        before(filled(m.nsec, 9), filled(n.nsec, 9)),
{
    assert(ten_to(9) == 1_000_000_000) by {
        reveal_with_fuel(ten_to, 10);
    }
    lemma_filled_order(m.nsec, n.nsec, 9);
}

/// Of two points in time from 1970 on, the date of the earlier one comes first in
/// the order of texts.
pub proof fn law_later_reads_later(a: int, b: int)
    requires
        0 <= a < b <= i64::MAX,
    ensures
        text::lex_le(Moment::of(a).text(), Moment::of(b).text()),
        Moment::of(a).text() != Moment::of(b).text(),
{
    let (m, n) = (Moment::of(a), Moment::of(b));
    let (p, q) = (m.clock() + seq!['.'], n.clock() + seq!['.']);
    let (x, y) = (p + filled(m.nsec, 9), q + filled(n.nsec, 9));
    let (d, e) = (m.date() + seq!['T'], n.date() + seq!['T']);
    lemma_moment(a, b);
    if m.days < n.days {
        lemma_date_order(m, n);
        lemma_before_head(m.date(), n.date(), seq!['T'], seq!['T']);
        lemma_before_head(d, e, x, y);
    } else {
        if m.time < n.time {
            lemma_time_order(m, n);
            lemma_before_head(m.clock(), n.clock(), seq!['.'], seq!['.']);
            lemma_before_head(p, q, filled(m.nsec, 9), filled(n.nsec, 9));
        } else {
            lemma_nanos_order(m, n);
            lemma_before_tail(p, filled(m.nsec, 9), filled(n.nsec, 9));
        }
        lemma_before_tail(d, x, y);
    }
    lemma_before_head(d + x, e + y, seq!['Z'], seq!['Z']);
    lemma_before_in_order(m.text(), n.text());
}

/// The mark at a place of a date, `0` where a digit stands.
pub open spec fn mark_at(i: int) -> char {
    if i == 4 || i == 7 {
        '-'
    } else if i == 10 {
        'T'
    } else if i == 13 || i == 16 {
        ':'
    } else if i == 19 {
        '.'
    } else if i == 29 {
        'Z'
    } else {
        '0'
    }
}

/// A date of thirty characters, `YYYY-MM-DDTHH:MM:SS.nnnnnnnnnZ`.
pub open spec fn is_full_date(s: Seq<char>) -> bool {
    &&& s.len() == 30
    &&& forall|i: int|
        0 <= i < 30 ==> if mark_at(i) == '0' {
            '0' <= #[trigger] s[i] <= '9'
        } else {
            s[i] == mark_at(i)
        }
}

proof fn lemma_joined_form(a: (int, int, int), width: int, mark: char)
    requires
        2 <= width <= 4,
        0 <= a.0 < ten_to(width),
        0 <= a.1 < 100,
        0 <= a.2 < 100,
    ensures
        ({
            let s = joined(a, width, mark);
            &&& s.len() == width + 6
            &&& s[width] == mark && s[width + 3] == mark
            &&& forall|i: int| 0 <= i < width + 6 && i != width && i != width + 3 ==> '0' <= #[trigger] s[i] <= '9'
        }),
{
    reveal_with_fuel(ten_to, 5);
    lemma_filled_width(a.0, width);
    lemma_filled_width(a.1, 2);
    lemma_filled_width(a.2, 2);
    lemma_filled(a.0, width);
    lemma_filled(a.1, 2);
    lemma_filled(a.2, 2);
    let s = joined(a, width, mark);
    assert forall|i: int| 0 <= i < width + 6 && i != width && i != width + 3 implies '0' <= #[trigger] s[i] <= '9' by {
        if i < width {
            assert(s[i] == filled(a.0, width)[i]);
        } else if i < width + 3 {
            assert(s[i] == filled(a.1, 2)[i - width - 1]);
        } else {
            assert(s[i] == filled(a.2, 2)[i - width - 4]);
        }
    }
}

/// The date of any point in time is written in full, and is its own normal form.
pub proof fn law_clock_writes_in_full(nanos: int)
    requires
        i64::MIN <= nanos <= i64::MAX,
    ensures
        is_full_date(Moment::of(nanos).text()),
        normalized(Moment::of(nanos).text()) == Moment::of(nanos).text(),
{
    let m = Moment::of(nanos);
    assert(0 <= m.days < 1_000_000 && 0 <= m.time < 86400 && 0 <= m.nsec < 1_000_000_000);
    let c = Civil::of(m.days);
    lemma_civil_range(m.days);
    reveal_with_fuel(ten_to, 10);
    lemma_joined_form(c.fields(), 4, '-');
    lemma_joined_form(m.time_fields(), 2, ':');
    lemma_filled_width(m.nsec, 9);
    lemma_filled(m.nsec, 9);
    let nine = filled(m.nsec, 9);
    let main = m.date() + seq!['T'] + m.clock();
    let body = main + seq!['.'] + nine;
    let s = m.text();
    assert(m.date() == joined(c.fields(), 4, '-'));
    assert(m.clock() == joined(m.time_fields(), 2, ':'));
    assert(s =~= body + seq!['Z']);
    assert forall|i: int| 0 <= i < 30 implies if mark_at(i) == '0' {
        '0' <= #[trigger] s[i] <= '9'
    } else {
        s[i] == mark_at(i)
    } by {
        if i < 10 {
            assert(s[i] == m.date()[i]);
        } else if 10 < i < 19 {
            assert(s[i] == m.clock()[i - 11]);
        } else if 19 < i < 29 {
            assert(s[i] == nine[i - 20]);
        }
    }
    assert(text::run_start(s, 30, Class::Is('Z')) == 29) by {
        reveal_with_fuel(text::run_start, 2);
        assert(s[29] == 'Z');
        assert(s[28] == nine[8]);
    }
    assert(s.take(29) =~= body);
    assert(!main.contains('.')) by {
        assert forall|i: int| 0 <= i < main.len() implies main[i] != '.' by {
            assert(main[i] == s[i]);
        }
    }
    lemma_cut_at_mark(main, '.', nine);
    lemma_digits_only(nine);
    assert(nine_digits(nine) =~= nine);
}

} // verus!
