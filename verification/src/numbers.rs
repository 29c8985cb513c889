//! Numerals: reading integers the way the standard library reads them, and
//! writing them in decimal.

use vstd::prelude::*;
use vstd::slice::slice_subrange;

verus! {

/// The value of a digit in bases up to sixteen; anything else is worth 99.
pub open spec fn digit_value(c: char) -> int {
    if '0' <= c <= '9' {
        c as int - '0' as int
    } else if 'a' <= c <= 'f' {
        c as int - 'a' as int + 10
    } else if 'A' <= c <= 'F' {
        c as int - 'A' as int + 10
    } else {
        99
    }
}

pub open spec fn all_digits(s: Seq<char>, radix: int) -> bool {
    forall|i: int| 0 <= i < s.len() ==> digit_value(#[trigger] s[i]) < radix
}

/// The number that the digits `s` write in base `radix`.
pub open spec fn numeral(s: Seq<char>, radix: int) -> int
    decreases s.len(),
{
    if s.len() == 0 {
        0
    } else {
        numeral(s.drop_last(), radix) * radix + digit_value(s.last())
    }
}

/// `s` as an unsigned number of at most `max`: digits after an optional plus sign.
pub open spec fn read_unsigned(s: Seq<char>, radix: int, max: int) -> Option<int> {
    let d = if s.len() > 0 && s[0] == '+' {
        s.skip(1)
    } else {
        s
    };
    if d.len() > 0 && all_digits(d, radix) && numeral(d, radix) <= max {
        Some(numeral(d, radix))
    } else {
        None
    }
}

/// `s` as a decimal number of type `i64`, with an optional sign.
pub open spec fn read_signed(s: Seq<char>) -> Option<int> {
    if s.len() > 0 && s[0] == '-' {
        let d = s.skip(1);
        if d.len() > 0 && all_digits(d, 10) && -numeral(d, 10) >= i64::MIN {
            Some(-numeral(d, 10))
        } else {
            None
        }
    } else {
        read_unsigned(s, 10, i64::MAX as int)
    }
}

pub proof fn lemma_numeral_grows(s: Seq<char>, k: int, radix: int)
    requires
        0 <= k <= s.len(),
        radix >= 1,
    ensures
        0 <= numeral(s.take(k), radix) <= numeral(s, radix),
    decreases s.len(),
{
    lemma_numeral_nonneg(s.take(k), radix);
    if k == s.len() {
        assert(s.take(k) =~= s);
    } else {
        lemma_numeral_grows(s.drop_last(), k, radix);
        assert(s.drop_last().take(k) =~= s.take(k));
        let p = numeral(s.drop_last(), radix);
        assert(p * radix >= p) by (nonlinear_arith)
            requires
                p >= 0,
                radix >= 1,
        ;
    }
}

proof fn lemma_numeral_nonneg(s: Seq<char>, radix: int)
    requires
        radix >= 1,
    ensures
        numeral(s, radix) >= 0,
    decreases s.len(),
{
    if s.len() > 0 {
        lemma_numeral_nonneg(s.drop_last(), radix);
        let p = numeral(s.drop_last(), radix);
        assert(p * radix >= 0) by (nonlinear_arith)
            requires
                p >= 0,
                radix >= 1,
        ;
    }
}

fn value_of_digit(c: char) -> (r: u64)
    ensures
        r == digit_value(c),
        r <= 99,
{
    if '0' <= c && c <= '9' {
        (c as u64) - 48
    } else if 'a' <= c && c <= 'f' {
        (c as u64) - 97 + 10
    } else if 'A' <= c && c <= 'F' {
        (c as u64) - 65 + 10
    } else {
        99
    }
}

/// Reads digits alone, with no sign.
fn read_digits(d: &[char], radix: u64, max: u64) -> (r: Option<u64>)
    requires
        2 <= radix <= 16,
    ensures
        r matches Some(v) ==> d@.len() > 0 && all_digits(d@, radix as int) && numeral(d@, radix as int) == v && v
            <= max,
        r is None ==> !(d@.len() > 0 && all_digits(d@, radix as int) && numeral(d@, radix as int) <= max),
{
    if d.len() == 0 {
        return None;
    }
    let mut acc: u64 = 0;
    let mut i: usize = 0;
    assert(d@.take(0) =~= Seq::<char>::empty());
    while i < d.len()
        invariant
            2 <= radix <= 16,
            i <= d@.len(),
            acc <= max,
            acc == numeral(d@.take(i as int), radix as int),
            forall|j: int| 0 <= j < i ==> digit_value(#[trigger] d@[j]) < radix,
        decreases d@.len() - i,
    {
        let v: u64 = value_of_digit(d[i]);
        if v >= radix {
            assert(digit_value(d@[i as int]) >= radix);
            return None;
        }
        assert(d@.take(i + 1).drop_last() =~= d@.take(i as int));
        assert(acc * radix + v <= 0xffff_ffff_ffff_ffff * 16 + 99) by (nonlinear_arith)
            requires
                acc <= 0xffff_ffff_ffff_ffff,
                radix <= 16,
                v <= 99,
        ;
        let wide: u128 = (acc as u128) * (radix as u128) + (v as u128);
        assert(wide == numeral(d@.take(i + 1), radix as int));
        if wide > max as u128 {
            proof {
                lemma_numeral_grows(d@, i + 1, radix as int);
            }
            return None;
        }
        acc = wide as u64;
        i += 1;
    }
    assert(d@.take(i as int) =~= d@);
    Some(acc)
}

/// Reads an unsigned number.
pub fn parse_unsigned(s: &[char], radix: u64, max: u64) -> (r: Option<u64>)
    requires
        2 <= radix <= 16,
    ensures
        r matches Some(v) ==> read_unsigned(s@, radix as int, max as int) == Some(v as int),
        r is None ==> read_unsigned(s@, radix as int, max as int) is None,
        r matches Some(v) ==> v <= max,
{
    if s.len() > 0 && s[0] == '+' {
        read_digits(slice_subrange(s, 1, s.len()), radix, max)
    } else {
        read_digits(s, radix, max)
    }
}

/// `s` as a decimal `usize`.
pub open spec fn read_usize(s: Seq<char>) -> Option<int> {
    read_unsigned(s, 10, usize::MAX as int)
}

pub fn parse_usize(s: &[char]) -> (r: Option<usize>)
    ensures
        r matches Some(v) ==> read_usize(s@) == Some(v as int),
        r is None ==> read_usize(s@) is None,
{
    match parse_unsigned(s, 10, usize::MAX as u64) {
        Some(v) => Some(v as usize),
        None => None,
    }
}

pub fn parse_signed(s: &[char]) -> (r: Option<i64>)
    ensures
        r matches Some(v) ==> read_signed(s@) == Some(v as int),
        r is None ==> read_signed(s@) is None,
{
    if s.len() > 0 && s[0] == '-' {
        match read_digits(slice_subrange(s, 1, s.len()), 10, 0x8000_0000_0000_0000) {
            Some(v) => {
                if v == 0x8000_0000_0000_0000 {
                    Some(i64::MIN)
                } else {
                    Some(-(v as i64))
                }
            },
            None => None,
        }
    } else {
        match parse_unsigned(s, 10, i64::MAX as u64) {
            Some(v) => Some(v as i64),
            None => None,
        }
    }
}

// ---------------------------------------------------------------------------
// Writing
// ---------------------------------------------------------------------------

/// The character for a decimal digit.
pub open spec fn digit_char(d: int) -> char {
    (('0' as int + d) as u32) as char
}

/// `n` in decimal, without leading zeros.
pub open spec fn decimal(n: nat) -> Seq<char>
    decreases n,
{
    if n < 10 {
        seq![digit_char(n as int)]
    } else {
        decimal(n / 10).push(digit_char((n % 10) as int))
    }
}

/// `s` filled up with zeros on the left to at least `width` characters.
pub open spec fn zero_filled(s: Seq<char>, width: int) -> Seq<char> {
    if s.len() >= width {
        s
    } else {
        Seq::new((width - s.len()) as nat, |i: int| '0') + s
    }
}

pub fn write_digit(d: u64) -> (r: char)
    requires
        d < 10,
    ensures
        r == digit_char(d as int),
{
    let b: u8 = 48 + (d as u8);
    b as char
}

/// Appends `n` in decimal.
pub fn push_decimal(out: &mut Vec<char>, n: u64)
    ensures
        final(out)@ == old(out)@ + decimal(n as nat),
    decreases n,
{
    if n < 10 {
        out.push(write_digit(n));
        assert(out@ =~= old(out)@ + decimal(n as nat));
    } else {
        push_decimal(out, n / 10);
        out.push(write_digit(n % 10));
        assert(out@ =~= old(out)@ + decimal(n as nat));
    }
}

/// `n` in decimal.
pub fn decimal_of(n: u64) -> (r: Vec<char>)
    ensures
        r@ == decimal(n as nat),
{
    let mut r: Vec<char> = Vec::new();
    push_decimal(&mut r, n);
    assert(r@ =~= decimal(n as nat));
    r
}

/// Appends `n` filled up with zeros to `width` characters.
pub fn push_filled(out: &mut Vec<char>, n: u64, width: usize)
    ensures
        final(out)@ == old(out)@ + zero_filled(decimal(n as nat), width as int),
{
    let digits = decimal_of(n);
    let mut k: usize = digits.len();
    let ghost start = out@;
    while k < width
        invariant
            digits@ == decimal(n as nat),
            digits@.len() <= k,
            k <= width || k == digits@.len(),
            out@ == start + Seq::new((k - digits@.len()) as nat, |i: int| '0'),
        decreases width - k,
    {
        out.push('0');
        k += 1;
        assert(out@ =~= start + Seq::new((k - digits@.len()) as nat, |i: int| '0'));
    }
    let mut i: usize = 0;
    let ghost mid = out@;
    while i < digits.len()
        invariant
            i <= digits@.len(),
            out@ == mid + digits@.take(i as int),
        decreases digits@.len() - i,
    {
        out.push(digits[i]);
        i += 1;
        assert(out@ =~= mid + digits@.take(i as int));
    }
    assert(out@ =~= start + zero_filled(decimal(n as nat), width as int));
}

/// Writing a number and reading it back gives the number.
pub proof fn law_decimal_reads_back(n: nat, max: int)
    requires
        n <= max,
    ensures
        read_unsigned(decimal(n), 10, max) == Some(n as int),
{
    lemma_decimal(n);
}

pub proof fn lemma_decimal(n: nat)
    ensures
        decimal(n).len() > 0,
        all_digits(decimal(n), 10),
        numeral(decimal(n), 10) == n,
        forall|i: int| 0 <= i < decimal(n).len() ==> '0' <= #[trigger] decimal(n)[i] <= '9',
    decreases n,
{
    reveal_with_fuel(numeral, 2);
    if n >= 10 {
        lemma_decimal(n / 10);
        assert(decimal(n).drop_last() =~= decimal(n / 10));
    } else {
        assert(decimal(n).drop_last() =~= Seq::<char>::empty());
    }
}

} // verus!
