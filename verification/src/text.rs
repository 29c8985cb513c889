//! Text as sequences of characters: runs, trimming, splitting, searching, and
//! reading and writing numbers.

use vstd::prelude::*;
use vstd::slice::slice_subrange;

verus! {

/// `String::push` appends the given character to the end of the string.
pub assume_specification[ String::push ](s: &mut String, ch: char)
    ensures
        final(s)@ == old(s)@.push(ch),
;

/// The characters of a string, in order.
pub fn chars_of(s: &str) -> (r: Vec<char>)
    ensures
        r@ == s@,
{
    let mut r: Vec<char> = Vec::new();
    for c in it: s.chars()
        invariant
            r@ == it.seq().take(it.index() as int),
            it.seq() == s@,
    {
        r.push(c);
        assert(r@ =~= it.seq().take(it.index() + 1));
    }
    assert(r@ =~= s@);
    r
}

/// The string that holds the given characters.
pub fn string_of(v: &[char]) -> (r: String)
    ensures
        r@ == v@,
{
    let mut r: String = String::new();
    let mut i: usize = 0;
    while i < v.len()
        invariant
            i <= v@.len(),
            r@ == v@.take(i as int),
        decreases v@.len() - i,
    {
        r.push(v[i]);
        i += 1;
        assert(r@ =~= v@.take(i as int));
    }
    assert(r@ =~= v@);
    r
}


// ---------------------------------------------------------------------------
// Character classes and runs
// ---------------------------------------------------------------------------

/// Whether `c` has the Unicode property White_Space.
pub open spec fn whitespace(c: char) -> bool {
    ||| '\u{9}' <= c <= '\u{d}'
    ||| c == ' '
    ||| c == '\u{85}'
    ||| c == '\u{a0}'
    ||| c == '\u{1680}'
    ||| '\u{2000}' <= c <= '\u{200a}'
    ||| c == '\u{2028}'
    ||| c == '\u{2029}'
    ||| c == '\u{202f}'
    ||| c == '\u{205f}'
    ||| c == '\u{3000}'
}

/// An ASCII letter or digit.
pub open spec fn ascii_alphanumeric(c: char) -> bool {
    ('0' <= c <= '9') || ('a' <= c <= 'z') || ('A' <= c <= 'Z')
}

/// Whether Unicode counts `c` as alphanumeric, as `char::is_alphanumeric` reports it.
pub uninterp spec fn alphanumeric(c: char) -> bool;

/// `char::is_alphanumeric`: a function of the character alone. On ASCII it
/// accepts the letters and the digits; for the rest of Unicode the table that
/// std carries is named, not spelled out.
pub assume_specification[ char::is_alphanumeric ](c: char) -> (r: bool)
    ensures
        r == alphanumeric(c),
        c <= '\u{7f}' ==> r == ascii_alphanumeric(c),
;

/// A set of characters that runs and trims are taken over.
#[derive(Clone, Copy)]
pub enum Class {
    /// White space.
    Space,
    /// A letter, a digit or an underscore.
    Word,
    /// Neither a word character nor white space.
    Punct,
    /// Exactly this character.
    Is(char),
    /// Any character but this one.
    Not(char),
    /// Any character but white space.
    NotSpace,
    /// A carriage return or a line feed.
    LineEnd,
    /// An ASCII digit.
    Digit,
}

impl Class {
    pub open spec fn has(self, c: char) -> bool {
        match self {
            Class::Space => whitespace(c),
            Class::Word => alphanumeric(c) || c == '_',
            Class::Punct => !alphanumeric(c) && c != '_' && !whitespace(c),
            Class::Is(d) => c == d,
            Class::Not(d) => c != d,
            Class::NotSpace => !whitespace(c),
            Class::LineEnd => c == '\r' || c == '\n',
            Class::Digit => '0' <= c <= '9',
        }
    }

    pub fn test(self, c: char) -> (r: bool)
        ensures
            r == self.has(c),
    {
        match self {
            Class::Space => is_whitespace(c),
            Class::Word => c.is_alphanumeric() || c == '_',
            Class::Punct => !c.is_alphanumeric() && c != '_' && !is_whitespace(c),
            Class::Is(d) => c == d,
            Class::Not(d) => c != d,
            Class::NotSpace => !is_whitespace(c),
            Class::LineEnd => c == '\r' || c == '\n',
            Class::Digit => '0' <= c && c <= '9',
        }
    }
}

pub fn is_whitespace(c: char) -> (r: bool)
    ensures
        r == whitespace(c),
{
    ('\u{9}' <= c && c <= '\u{d}') || c == ' ' || c == '\u{85}' || c == '\u{a0}' || c == '\u{1680}'
        || ('\u{2000}' <= c && c <= '\u{200a}') || c == '\u{2028}' || c == '\u{2029}' || c == '\u{202f}'
        || c == '\u{205f}' || c == '\u{3000}'
}

/// The end of the run of `k` characters that begins at `i`.
pub open spec fn run_end(s: Seq<char>, i: int, k: Class) -> int
    decreases s.len() - i,
{
    if 0 <= i < s.len() && k.has(s[i]) {
        run_end(s, i + 1, k)
    } else {
        i
    }
}

/// The start of the run of `k` characters that ends just before `j`.
pub open spec fn run_start(s: Seq<char>, j: int, k: Class) -> int
    decreases j,
{
    if 0 < j <= s.len() && k.has(s[j - 1]) {
        run_start(s, j - 1, k)
    } else {
        j
    }
}

/// A run stays inside the text, holds only `k` characters and stops at the first other one.
pub proof fn lemma_run_end(s: Seq<char>, i: int, k: Class)
    requires
        0 <= i <= s.len(),
    ensures
        i <= run_end(s, i, k) <= s.len(),
        forall|j: int| i <= j < run_end(s, i, k) ==> k.has(#[trigger] s[j]),
        run_end(s, i, k) < s.len() ==> !k.has(s[run_end(s, i, k)]),
    decreases s.len() - i,
{
    if i < s.len() && k.has(s[i]) {
        lemma_run_end(s, i + 1, k);
    }
}

pub proof fn lemma_run_start(s: Seq<char>, j: int, k: Class)
    requires
        0 <= j <= s.len(),
    ensures
        0 <= run_start(s, j, k) <= j,
        forall|i: int| run_start(s, j, k) <= i < j ==> k.has(#[trigger] s[i]),
        run_start(s, j, k) > 0 ==> !k.has(s[run_start(s, j, k) - 1]),
    decreases j,
{
    if 0 < j && k.has(s[j - 1]) {
        lemma_run_start(s, j - 1, k);
    }
}

/// Finds `run_end`.
pub fn scan_forward(s: &[char], from: usize, k: Class) -> (r: usize)
    requires
        from <= s@.len(),
    ensures
        r == run_end(s@, from as int, k),
        from <= r <= s@.len(),
{
    let mut i: usize = from;
    while i < s.len() && k.test(s[i])
        invariant
            from <= i <= s@.len(),
            run_end(s@, from as int, k) == run_end(s@, i as int, k),
        decreases s@.len() - i,
    {
        i += 1;
    }
    i
}

/// Finds `run_start`.
pub fn scan_backward(s: &[char], to: usize, k: Class) -> (r: usize)
    requires
        to <= s@.len(),
    ensures
        r == run_start(s@, to as int, k),
        r <= to,
{
    let mut j: usize = to;
    while j > 0 && k.test(s[j - 1])
        invariant
            j <= to <= s@.len(),
            run_start(s@, to as int, k) == run_start(s@, j as int, k),
        decreases j,
    {
        j -= 1;
    }
    j
}

// ---------------------------------------------------------------------------
// Trimming and splitting
// ---------------------------------------------------------------------------

pub open spec fn trim_start(s: Seq<char>, k: Class) -> Seq<char> {
    s.skip(run_end(s, 0, k))
}

pub open spec fn trim_end(s: Seq<char>, k: Class) -> Seq<char> {
    s.take(run_start(s, s.len() as int, k))
}

pub open spec fn trim(s: Seq<char>, k: Class) -> Seq<char> {
    trim_end(trim_start(s, k), k)
}

/// `s` without the white space at its two ends.
pub open spec fn trimmed(s: Seq<char>) -> Seq<char> {
    trim(s, Class::Space)
}

pub fn skip_start(s: &[char], k: Class) -> (r: &[char])
    ensures
        r@ == trim_start(s@, k),
{
    let i: usize = scan_forward(s, 0, k);
    slice_subrange(s, i, s.len())
}

pub fn skip_end(s: &[char], k: Class) -> (r: &[char])
    ensures
        r@ == trim_end(s@, k),
{
    let j: usize = scan_backward(s, s.len(), k);
    slice_subrange(s, 0, j)
}

pub fn strip(s: &[char], k: Class) -> (r: &[char])
    ensures
        r@ == trim(s@, k),
{
    skip_end(skip_start(s, k), k)
}

/// The text before the first `c` and the text after it.
pub open spec fn cut(s: Seq<char>, k: Class) -> Option<(Seq<char>, Seq<char>)> {
    let n = run_end(s, 0, k);
    if 0 <= n < s.len() {
        Some((s.take(n), s.skip(n + 1)))
    } else {
        None
    }
}

/// The text before the first `c` and after it.
pub open spec fn split_once(s: Seq<char>, c: char) -> Option<(Seq<char>, Seq<char>)> {
    cut(s, Class::Not(c))
}

pub fn cut_at<'a>(s: &'a [char], k: Class) -> (r: Option<(&'a [char], &'a [char])>)
    ensures
        r matches Some(p) ==> cut(s@, k) == Some((p.0@, p.1@)),
        r is None ==> cut(s@, k) is None,
{
    let n: usize = scan_forward(s, 0, k);
    if n < s.len() {
        Some((slice_subrange(s, 0, n), slice_subrange(s, n + 1, s.len())))
    } else {
        None
    }
}

/// The pieces of `s` between the separators `c`: one more than there are separators.
pub open spec fn split(s: Seq<char>, c: char) -> Seq<Seq<char>>
    decreases s.len(),
{
    match split_once(s, c) {
        Some((head, tail)) => if tail.len() < s.len() {
            seq![head] + split(tail, c)
        } else {
            seq![s]
        },
        None => seq![s],
    }
}

/// The views of a list of slices.
pub open spec fn views(v: Seq<&[char]>) -> Seq<Seq<char>> {
    v.map_values(|p: &[char]| p@)
}

pub fn pieces<'a>(s: &'a [char], c: char) -> (r: Vec<&'a [char]>)
    ensures
        views(r@) == split(s@, c),
        r@.len() > 0,
{
    let mut r: Vec<&'a [char]> = Vec::new();
    let mut rest: &'a [char] = s;
    assert(views(r@) + split(rest@, c) =~= split(s@, c));
    loop
        invariant_except_break
            views(r@) + split(rest@, c) == split(s@, c),
        ensures
            views(r@) == split(s@, c),
            r@.len() > 0,
        decreases rest@.len(),
    {
        let ghost before = r@;
        let ghost all = rest@;
        match cut_at(rest, Class::Not(c)) {
            Some((head, tail)) => {
                r.push(head);
                rest = tail;
                assert(views(r@) =~= views(before).push(head@));
                assert(views(r@) + split(rest@, c) =~= views(before) + split(all, c));
            },
            None => {
                r.push(rest);
                assert(views(r@) =~= views(before).push(rest@));
                assert(views(r@) =~= views(before) + split(all, c));
                break;
            },
        }
    }
    r
}

/// The words of `s`: its maximal runs of characters that are not white space.
pub open spec fn words(s: Seq<char>) -> Seq<Seq<char>> {
    words_from(s, 0)
}

pub open spec fn word_end(s: Seq<char>, i: int) -> int
    decreases s.len() - i,
{
    if 0 <= i < s.len() && !whitespace(s[i]) {
        word_end(s, i + 1)
    } else {
        i
    }
}

pub proof fn lemma_word_end(s: Seq<char>, i: int)
    requires
        0 <= i <= s.len(),
    ensures
        i <= word_end(s, i) <= s.len(),
        i < s.len() && !whitespace(s[i]) ==> i < word_end(s, i),
    decreases s.len() - i,
{
    if i < s.len() && !whitespace(s[i]) {
        lemma_word_end(s, i + 1);
    }
}

pub open spec fn words_from(s: Seq<char>, i: int) -> Seq<Seq<char>>
    decreases s.len() - i,
{
    if !(0 <= i < s.len()) {
        seq![]
    } else if whitespace(s[i]) {
        words_from(s, i + 1)
    } else {
        let e = word_end(s, i);
        if i < e <= s.len() {
            seq![s.subrange(i, e)] + words_from(s, e)
        } else {
            seq![]
        }
    }
}

pub fn find_word_end(s: &[char], from: usize) -> (r: usize)
    requires
        from <= s@.len(),
    ensures
        r == word_end(s@, from as int),
        from <= r <= s@.len(),
{
    let mut i: usize = from;
    while i < s.len() && !is_whitespace(s[i])
        invariant
            from <= i <= s@.len(),
            word_end(s@, from as int) == word_end(s@, i as int),
        decreases s@.len() - i,
    {
        i += 1;
    }
    i
}

pub fn split_words<'a>(s: &'a [char]) -> (r: Vec<&'a [char]>)
    ensures
        views(r@) == words(s@),
{
    let mut r: Vec<&'a [char]> = Vec::new();
    let mut i: usize = 0;
    assert(views(r@) + words_from(s@, 0) =~= words(s@));
    while i < s.len()
        invariant
            i <= s@.len(),
            views(r@) + words_from(s@, i as int) == words(s@),
        decreases s@.len() - i,
    {
        if is_whitespace(s[i]) {
            i += 1;
        } else {
            let e: usize = find_word_end(s, i);
            proof {
                lemma_word_end(s@, i as int);
            }
            let ghost before = r@;
            r.push(slice_subrange(s, i, e));
            assert(views(r@) =~= views(before).push(s@.subrange(i as int, e as int)));
            assert(views(r@) + words_from(s@, e as int) =~= views(before) + words_from(s@, i as int));
            i = e;
        }
    }
    assert(views(r@) =~= words(s@));
    r
}

// ---------------------------------------------------------------------------
// Comparing and searching
// ---------------------------------------------------------------------------

/// Whether `n` stands in `h` at position `i`.
pub open spec fn stands_at(h: Seq<char>, i: int, n: Seq<char>) -> bool {
    0 <= i && i + n.len() <= h.len() && h.subrange(i, i + n.len()) == n
}

/// Whether `n` stands somewhere in `h`.
pub open spec fn contains(h: Seq<char>, n: Seq<char>) -> bool {
    exists|i: int| stands_at(h, i, n)
}

/// The first position at or after `i` at which `n` stands in `h`.
pub open spec fn find_from(h: Seq<char>, i: int, n: Seq<char>) -> Option<int>
    decreases h.len() - i,
{
    if stands_at(h, i, n) {
        Some(i)
    } else if 0 <= i < h.len() {
        find_from(h, i + 1, n)
    } else {
        None
    }
}

pub open spec fn find(h: Seq<char>, n: Seq<char>) -> Option<int> {
    find_from(h, 0, n)
}

pub proof fn lemma_find(h: Seq<char>, i: int, n: Seq<char>)
    requires
        0 <= i <= h.len(),
    ensures
        find_from(h, i, n) matches Some(k) ==> i <= k && stands_at(h, k, n),
        find_from(h, i, n) is None ==> forall|k: int| i <= k ==> !stands_at(h, k, n),
    decreases h.len() - i,
{
    if !stands_at(h, i, n) && i < h.len() {
        lemma_find(h, i + 1, n);
    }
}

pub fn equal(a: &[char], b: &[char]) -> (r: bool)
    ensures
        r == (a@ == b@),
{
    if a.len() != b.len() {
        return false;
    }
    let mut i: usize = 0;
    while i < a.len()
        invariant
            i <= a@.len(),
            a@.len() == b@.len(),
            forall|j: int| 0 <= j < i ==> a@[j] == b@[j],
        decreases a@.len() - i,
    {
        if a[i] != b[i] {
            return false;
        }
        i += 1;
    }
    assert(a@ =~= b@);
    true
}

/// Whether the characters of `a` are those of the string `b`.
pub fn equals_str(a: &[char], b: &str) -> (r: bool)
    ensures
        r == (a@ == b@),
{
    let v = chars_of(b);
    equal(a, v.as_slice())
}

pub fn same_str(a: &str, b: &str) -> (r: bool)
    ensures
        r == (a@ == b@),
{
    let v = chars_of(a);
    equals_str(v.as_slice(), b)
}

pub fn occurs_at(h: &[char], i: usize, n: &[char]) -> (r: bool)
    requires
        i <= h@.len(),
    ensures
        r == stands_at(h@, i as int, n@),
{
    if h.len() - i < n.len() {
        return false;
    }
    equal(slice_subrange(h, i, i + n.len()), n)
}

pub fn find_text(h: &[char], n: &[char]) -> (r: Option<usize>)
    ensures
        r matches Some(k) ==> find(h@, n@) == Some(k as int) && stands_at(h@, k as int, n@),
        r is None ==> find(h@, n@) is None,
{
    let mut i: usize = 0;
    loop
        invariant
            i <= h@.len(),
            find(h@, n@) == find_from(h@, i as int, n@),
        decreases h@.len() - i,
    {
        if occurs_at(h, i, n) {
            return Some(i);
        }
        if i >= h.len() {
            return None;
        }
        i += 1;
    }
}

pub fn has_text(h: &[char], n: &[char]) -> (r: bool)
    ensures
        r == contains(h@, n@),
{
    proof {
        lemma_find(h@, 0, n@);
    }
    match find_text(h, n) {
        Some(_) => true,
        None => {
            assert forall|i: int| !stands_at(h@, i, n@) by {
                if i < 0 {
                }
            }
            false
        },
    }
}

/// Whether the string `n` occurs in the string `h`.
pub fn str_has(h: &str, n: &str) -> (r: bool)
    ensures
        r == contains(h@, n@),
{
    let hv = chars_of(h);
    let nv = chars_of(n);
    has_text(hv.as_slice(), nv.as_slice())
}

/// `a` comes before `b`, or is `b`, in the order of code points.
pub open spec fn lex_le(a: Seq<char>, b: Seq<char>) -> bool {
    lex_le_from(a, b, 0)
}

pub open spec fn lex_le_from(a: Seq<char>, b: Seq<char>, i: int) -> bool
    decreases a.len() - i,
{
    if !(0 <= i < a.len()) {
        true
    } else if i >= b.len() {
        false
    } else if a[i] != b[i] {
        a[i] < b[i]
    } else {
        lex_le_from(a, b, i + 1)
    }
}

pub fn not_after(a: &str, b: &str) -> (r: bool)
    ensures
        r == lex_le(a@, b@),
{
    let x = chars_of(a);
    let y = chars_of(b);
    let mut i: usize = 0;
    while i < x.len()
        invariant
            i <= x@.len(),
            x@ == a@,
            y@ == b@,
            lex_le(a@, b@) == lex_le_from(x@, y@, i as int),
        decreases x@.len() - i,
    {
        if i >= y.len() {
            return false;
        }
        if x[i] != y[i] {
            return x[i] < y[i];
        }
        i += 1;
    }
    true
}

// ---------------------------------------------------------------------------
// Letter case
// ---------------------------------------------------------------------------

pub open spec fn ascii_lower(c: char) -> char {
    if 'A' <= c <= 'Z' {
        ((c as u32 + 32) as u32) as char
    } else {
        c
    }
}

pub open spec fn ascii_upper(c: char) -> char {
    if 'a' <= c <= 'z' {
        ((c as u32 - 32) as u32) as char
    } else {
        c
    }
}

pub open spec fn is_ascii_text(s: Seq<char>) -> bool {
    forall|i: int| 0 <= i < s.len() ==> #[trigger] s[i] <= '\u{7f}'
}

pub open spec fn ascii_lowered(s: Seq<char>) -> Seq<char> {
    s.map_values(|c: char| ascii_lower(c))
}

pub open spec fn ascii_uppered(s: Seq<char>) -> Seq<char> {
    s.map_values(|c: char| ascii_upper(c))
}

/// The lower-case form of a text, as `str::to_lowercase` gives it.
pub uninterp spec fn lowercase(s: Seq<char>) -> Seq<char>;

/// The upper-case form of a text, as `str::to_uppercase` gives it.
pub uninterp spec fn uppercase(s: Seq<char>) -> Seq<char>;

/// `str::to_lowercase`: a function of the text alone, which on ASCII text maps
/// the capital letters and leaves the rest; beyond ASCII the Unicode mapping is
/// named, not spelled out.
#[verifier::external_body]
pub(crate) fn to_lower(s: &str) -> (r: String)
    ensures
        r@ == lowercase(s@),
        is_ascii_text(s@) ==> r@ == ascii_lowered(s@),
{
    s.to_lowercase()
}

/// `str::to_uppercase`: a function of the text alone, which on ASCII text maps
/// the small letters and leaves the rest; beyond ASCII the Unicode mapping is
/// named, not spelled out.
#[verifier::external_body]
pub(crate) fn to_upper(s: &str) -> (r: String)
    ensures
        r@ == uppercase(s@),
        is_ascii_text(s@) ==> r@ == ascii_uppered(s@),
{
    s.to_uppercase()
}

pub fn lower_char(c: char) -> (r: char)
    ensures
        r == ascii_lower(c),
{
    if 'A' <= c && c <= 'Z' {
        let b: u8 = (c as u8) + 32;
        b as char
    } else {
        c
    }
}

/// Equality up to the case of ASCII letters.
pub open spec fn same_ignoring_case(a: Seq<char>, b: Seq<char>) -> bool {
    ascii_lowered(a) == ascii_lowered(b)
}

pub fn equal_ignoring_case(a: &[char], b: &str) -> (r: bool)
    ensures
        r == same_ignoring_case(a@, b@),
{
    let v = chars_of(b);
    if a.len() != v.len() {
        assert(ascii_lowered(a@).len() != ascii_lowered(b@).len());
        return false;
    }
    let mut i: usize = 0;
    while i < a.len()
        invariant
            i <= a@.len(),
            a@.len() == v@.len(),
            v@ == b@,
            forall|j: int| 0 <= j < i ==> ascii_lower(a@[j]) == ascii_lower(v@[j]),
        decreases a@.len() - i,
    {
        if lower_char(a[i]) != lower_char(v[i]) {
            assert(ascii_lowered(a@)[i as int] != ascii_lowered(b@)[i as int]);
            return false;
        }
        i += 1;
    }
    assert(ascii_lowered(a@) =~= ascii_lowered(b@));
    true
}

} // verus!
