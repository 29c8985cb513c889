//! Text in base 64, as the terminal takes it for the clipboard.

use crate::text::string_of;
use vstd::prelude::*;
use vstd::string::*;
use vstd::utf8::*;

verus! {

/// The character that stands for six bits.
pub open spec fn sextet(i: int) -> char {
    if i < 26 {
        ((65 + i) as u32) as char
    } else if i < 52 {
        ((71 + i) as u32) as char
    } else if i < 62 {
        ((i - 4) as u32) as char
    } else if i == 62 {
        '+'
    } else {
        '/'
    }
}

/// The six bits that a character stands for.
pub open spec fn sextet_value(c: char) -> int {
    if 'A' <= c <= 'Z' {
        c as int - 65
    } else if 'a' <= c <= 'z' {
        c as int - 71
    } else if '0' <= c <= '9' {
        c as int + 4
    } else if c == '+' {
        62
    } else {
        63
    }
}

/// The four characters for up to three bytes.
pub open spec fn group(b: Seq<u8>) -> Seq<char> {
    let b0 = b[0] as int;
    let b1 = if b.len() > 1 {
        b[1] as int
    } else {
        0
    };
    let b2 = if b.len() > 2 {
        b[2] as int
    } else {
        0
    };
    seq![
        sextet(b0 / 4),
        sextet((b0 % 4) * 16 + b1 / 16),
        if b.len() > 1 {
            sextet((b1 % 16) * 4 + b2 / 64)
        } else {
            '='
        },
        if b.len() > 2 {
            sextet(b2 % 64)
        } else {
            '='
        },
    ]
}

/// The bytes in base 64, three by three.
pub open spec fn encoded(b: Seq<u8>) -> Seq<char>
    decreases b.len(),
{
    if b.len() == 0 {
        seq![]
    } else if b.len() <= 3 {
        group(b)
    } else {
        group(b.take(3)) + encoded(b.skip(3))
    }
}

/// The bytes that four characters stand for.
pub open spec fn ungroup(s: Seq<char>) -> Seq<u8> {
    let v0 = sextet_value(s[0]);
    let v1 = sextet_value(s[1]);
    let v2 = sextet_value(s[2]);
    let v3 = sextet_value(s[3]);
    if s[2] == '=' {
        seq![(v0 * 4 + v1 / 16) as u8]
    } else if s[3] == '=' {
        seq![(v0 * 4 + v1 / 16) as u8, ((v1 % 16) * 16 + v2 / 4) as u8]
    } else {
        seq![
            (v0 * 4 + v1 / 16) as u8,
            ((v1 % 16) * 16 + v2 / 4) as u8,
            ((v2 % 4) * 64 + v3) as u8,
        ]
    }
}

/// The bytes that a text in base 64 stands for.
pub open spec fn decoded(s: Seq<char>) -> Seq<u8>
    decreases s.len(),
{
    if s.len() < 4 {
        seq![]
    } else {
        ungroup(s.take(4)) + decoded(s.skip(4))
    }
}

proof fn lemma_sextet(i: int)
    requires
        0 <= i < 64,
    ensures
        sextet_value(sextet(i)) == i,
        sextet(i) != '=',
{
}

proof fn lemma_group(b: Seq<u8>)
    requires
        0 < b.len() <= 3,
    ensures
        group(b).len() == 4,
        ungroup(group(b)) == b,
{
    let b0 = b[0] as int;
    let b1 = if b.len() > 1 {
        b[1] as int
    } else {
        0
    };
    let b2 = if b.len() > 2 {
        b[2] as int
    } else {
        0
    };
    lemma_sextet(b0 / 4);
    lemma_sextet((b0 % 4) * 16 + b1 / 16);
    lemma_sextet((b1 % 16) * 4 + b2 / 64);
    lemma_sextet(b2 % 64);
    assert(ungroup(group(b)) =~= b);
}

/// Bytes in base 64 stand for those bytes.
pub proof fn law_base64_reads_back(b: Seq<u8>)
    ensures
        decoded(encoded(b)) == b,
    decreases b.len(),
{
    if b.len() == 0 {
    } else if b.len() <= 3 {
        lemma_group(b);
        let g = group(b);
        assert(g.take(4) =~= g);
        assert(decoded(g.skip(4)) =~= seq![]);
        assert(decoded(g) =~= b);
    } else {
        let g = group(b.take(3));
        lemma_group(b.take(3));
        law_base64_reads_back(b.skip(3));
        let s = encoded(b);
        assert(s.take(4) =~= g);
        assert(s.skip(4) =~= encoded(b.skip(3)));
        assert(decoded(s) =~= b);
    }
}

/// The characters are the capital letters, the small letters, the digits, `+` and `/`, in
/// this order.
pub proof fn law_alphabet(i: int)
    requires
        0 <= i < 64,
    ensures
        i < 26 ==> sextet(i) as int == 'A' as int + i,
        26 <= i < 52 ==> sextet(i) as int == 'a' as int + (i - 26),
        52 <= i < 62 ==> sextet(i) as int == '0' as int + (i - 52),
        i == 62 ==> sextet(i) == '+',
        i == 63 ==> sextet(i) == '/',
{
}

/// Four characters hold the bits of three bytes in order: both are the same number, in
/// base 64 and in base 256.
pub proof fn law_bits_in_order(b: Seq<u8>)
    requires
        b.len() == 3,
    ensures
        ({
            let v = |k: int| sextet_value(encoded(b)[k]);
            ((v(0) * 64 + v(1)) * 64 + v(2)) * 64 + v(3) == (b[0] * 256 + b[1]) * 256 + b[2]
        }),
{
    let (b0, b1, b2) = (b[0] as int, b[1] as int, b[2] as int);
    lemma_sextet(b0 / 4);
    lemma_sextet((b0 % 4) * 16 + b1 / 16);
    lemma_sextet((b1 % 16) * 4 + b2 / 64);
    lemma_sextet(b2 % 64);
}

/// Three bytes take four characters; what is missing of the last three is filled up with
/// equals signs, one for each byte that is missing.
pub proof fn law_length_and_padding(b: Seq<u8>)
    ensures
        encoded(b).len() == 4 * ((b.len() + 2) / 3),
        b.len() % 3 == 1 ==> encoded(b)[encoded(b).len() - 2] == '=' && encoded(b).last() == '=',
        b.len() % 3 == 2 ==> encoded(b)[encoded(b).len() - 2] != '=' && encoded(b).last() == '=',
        b.len() % 3 == 0 && b.len() > 0 ==> encoded(b).last() != '=',
    decreases b.len(),
{
    if b.len() > 3 {
        let rest = b.skip(3);
        law_length_and_padding(rest);
        let (g, e) = (group(b.take(3)), encoded(rest));
        assert(g.len() == 4);
        assert(rest.len() % 3 == b.len() % 3);
        assert(encoded(b) == g + e);
        assert(encoded(b).last() == e.last());
        assert(encoded(b)[encoded(b).len() - 2] == e[e.len() - 2]);
    } else if b.len() > 0 {
        let b1 = if b.len() > 1 {
            b[1] as int
        } else {
            0
        };
        let b2 = if b.len() > 2 {
            b[2] as int
        } else {
            0
        };
        lemma_sextet((b1 % 16) * 4 + b2 / 64);
        lemma_sextet(b2 % 64);
    }
}

fn write_sextet(i: u8) -> (r: char)
    requires
        i < 64,
    ensures
        r == sextet(i as int),
{
    let b: u8 = if i < 26 {
        65 + i
    } else if i < 52 {
        71 + i
    } else if i < 62 {
        i - 4
    } else if i == 62 {
        43
    } else {
        47
    };
    b as char
}

fn push_group(out: &mut Vec<char>, b: &[u8], from: usize, n: usize)
    requires
        1 <= n <= 3,
        from + n <= b@.len(),
    ensures
        final(out)@ == old(out)@ + group(b@.subrange(from as int, from + n)),
{
    let ghost start = out@;
    let ghost part = b@.subrange(from as int, from + n);
    let b0: u8 = b[from];
    let b1: u8 = if n > 1 {
        b[from + 1]
    } else {
        0
    };
    let b2: u8 = if n > 2 {
        b[from + 2]
    } else {
        0
    };
    out.push(write_sextet(b0 / 4));
    out.push(write_sextet((b0 % 4) * 16 + b1 / 16));
    out.push(
        if n > 1 {
            write_sextet((b1 % 16) * 4 + b2 / 64)
        } else {
            '='
        },
    );
    out.push(
        if n > 2 {
            write_sextet(b2 % 64)
        } else {
            '='
        },
    );
    assert(out@ =~= start + group(part));
}

/// The text's bytes in base 64.
pub fn base64_encode(input: &str) -> (r: String)
    ensures
        r@ == encoded(encode_utf8(input@)),
{
    let b = input.as_bytes();
    let mut out: Vec<char> = Vec::new();
    let mut i: usize = 0;
    assert(b@.skip(0) =~= b@);
    assert(out@ + encoded(b@) =~= encoded(b@));
    while i < b.len()
        invariant
            i <= b@.len(),
            out@ + encoded(b@.skip(i as int)) == encoded(b@),
        decreases b@.len() - i,
    {
        let n: usize = if b.len() - i > 3 {
            3
        } else {
            b.len() - i
        };
        let ghost rest = b@.skip(i as int);
        let ghost before = out@;
        push_group(&mut out, b, i, n);
        assert(rest.take(n as int) =~= b@.subrange(i as int, i + n));
        assert(rest.skip(n as int) =~= b@.skip(i + n));
        assert(rest.len() <= 3 ==> rest.take(n as int) =~= rest);
        assert(out@ + encoded(b@.skip(i + n)) =~= before + encoded(rest));
        i += n;
    }
    assert(out@ =~= encoded(b@));
    string_of(out.as_slice())
}

/// The words that make a terminal put a text on the clipboard.
pub fn clipboard_sequence(text: &str) -> (r: String)
    ensures
        r@ == "\u{1b}]52;c;"@ + encoded(encode_utf8(text@)) + "\u{7}"@,
{
    let mut v = crate::text::chars_of("\u{1b}]52;c;");
    let mut e = crate::text::chars_of(base64_encode(text).as_str());
    let mut end = crate::text::chars_of("\u{7}");
    v.append(&mut e);
    v.append(&mut end);
    string_of(v.as_slice())
}

} // verus!
