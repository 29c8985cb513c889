//! Patterns with `*` for any run of characters and `?` for any one character.

use crate::text::{self, chars_of, strip, Class};
use vstd::prelude::*;

verus! {

/// What a pattern means: whether the pattern from `i` on matches all of the text from `j` on.
pub open spec fn glob_at(p: Seq<char>, t: Seq<char>, i: int, j: int) -> bool
    decreases p.len() - i, t.len() - j,
{
    if !(0 <= i <= p.len() && 0 <= j <= t.len()) {
        false
    } else if i == p.len() {
        j == t.len()
    } else if p[i] == '*' {
        glob_at(p, t, i + 1, j) || (j < t.len() && glob_at(p, t, i, j + 1))
    } else {
        j < t.len() && (p[i] == '?' || p[i] == t[j]) && glob_at(p, t, i + 1, j + 1)
    }
}

/// Whether the pattern holds nothing but stars from `i` on.
pub open spec fn only_stars(p: Seq<char>, i: int) -> bool
    decreases p.len() - i,
{
    if 0 <= i < p.len() && p[i] == '*' {
        only_stars(p, i + 1)
    } else {
        i == p.len()
    }
}

/// Where the matcher stands: `i` in the pattern, `j` in the text, and the last
/// star it passed with the place in the text where that star's run ends.
pub open spec fn standing(p: Seq<char>, t: Seq<char>, i: int, j: int, star: Option<(int, int)>) -> bool {
    &&& 0 <= i <= p.len()
    &&& 0 <= j <= t.len()
    &&& star matches Some((a, b)) ==> 0 <= a < i && 0 <= b <= j
}

/// The matcher's search. A pattern character that equals the text character is
/// taken as itself before a star is taken as a star; on a mismatch the last star
/// takes in one more character.
pub open spec fn search(p: Seq<char>, t: Seq<char>, i: int, j: int, star: Option<(int, int)>) -> bool
    decreases
            (match star {
                Some((_, b)) => t.len() - b,
                None => t.len() as int + 1,
            }),
            p.len() - i,
    when standing(p, t, i, j, star)
{
    if j == t.len() {
        only_stars(p, i)
    } else if i < p.len() && (p[i] == '?' || p[i] == t[j]) {
        search(p, t, i + 1, j + 1, star)
    } else if i < p.len() && p[i] == '*' {
        search(p, t, i + 1, j, Some((i, j)))
    } else {
        match star {
            Some((a, b)) => search(p, t, a + 1, b + 1, Some((a, b + 1))),
            None => false,
        }
    }
}

/// The pattern that finds `pattern` anywhere in a text.
pub open spec fn anywhere(pattern: Seq<char>) -> Seq<char> {
    seq!['*'] + text::trim(pattern, Class::Is('*')) + seq!['*']
}

/// Whether the matcher finds the pattern in the text.
pub open spec fn glob_finds(pattern: Seq<char>, t: Seq<char>) -> bool {
    search(anywhere(pattern), t, 0, 0, None)
}

pub fn match_glob_slice(pat: &[char], txt: &[char]) -> (r: bool)
    ensures
        r == search(pat@, txt@, 0, 0, None),
{
    let mut p: usize = 0;
    let mut t: usize = 0;
    let mut has_star: bool = false;
    let mut star_p: usize = 0;
    let mut star_t: usize = 0;
    let ghost mut star: Option<(int, int)> = None;
    while t < txt.len()
        invariant
            star == (if has_star {
                Some((star_p as int, star_t as int))
            } else {
                None
            }),
            standing(pat@, txt@, p as int, t as int, star),
            search(pat@, txt@, 0, 0, None) == search(pat@, txt@, p as int, t as int, star),
        decreases
                (if has_star {
                    txt@.len() - star_t
                } else {
                    txt@.len() as int + 1
                }),
                pat@.len() - p,
    {
        if p < pat.len() && (pat[p] == '?' || pat[p] == txt[t]) {
            p += 1;
            t += 1;
        } else if p < pat.len() && pat[p] == '*' {
            has_star = true;
            star_p = p;
            star_t = t;
            p += 1;
            proof {
                star = Some((star_p as int, star_t as int));
            }
        } else if has_star {
            p = star_p + 1;
            star_t += 1;
            t = star_t;
            proof {
                star = Some((star_p as int, star_t as int));
            }
        } else {
            return false;
        }
    }
    while p < pat.len() && pat[p] == '*'
        invariant
            p <= pat@.len(),
            search(pat@, txt@, 0, 0, None) == only_stars(pat@, p as int),
        decreases pat@.len() - p,
    {
        p += 1;
    }
    p == pat.len()
}

pub fn glob_contains(pattern: &str, txt: &str) -> (r: bool)
    ensures
        r == glob_finds(pattern@, txt@),
{
    let v = chars_of(pattern);
    let core = strip(v.as_slice(), Class::Is('*'));
    let mut pat: Vec<char> = Vec::new();
    pat.push('*');
    pat.extend_from_slice(core);
    pat.push('*');
    assert(pat@ =~= anywhere(pattern@));
    let t = chars_of(txt);
    match_glob_slice(pat.as_slice(), t.as_slice())
}

/// A star that can match from `m` on can match from any earlier place on.
proof fn lemma_star_reaches_back(p: Seq<char>, t: Seq<char>, i: int, j: int, m: int)
    requires
        0 <= i < p.len(),
        p[i] == '*',
        0 <= j <= m <= t.len(),
        glob_at(p, t, i, m),
    ensures
        glob_at(p, t, i, j),
    decreases m - j,
{
    if j < m {
        lemma_star_reaches_back(p, t, i, j + 1, m);
    }
}

/// A part of the pattern without stars takes up as many characters as it has.
proof fn lemma_plain_part(p: Seq<char>, t: Seq<char>, a: int, b: int, k: int)
    requires
        0 <= a <= b <= p.len(),
        forall|x: int| a <= x < b ==> p[x] != '*',
        glob_at(p, t, a, k),
    ensures
        k + (b - a) <= t.len(),
        glob_at(p, t, b, k + (b - a)),
    decreases b - a,
{
    if a < b {
        lemma_plain_part(p, t, a + 1, b, k + 1);
    }
}

/// A star ends its run somewhere.
proof fn lemma_star_run(p: Seq<char>, t: Seq<char>, i: int, j: int) -> (k: int)
    requires
        0 <= i < p.len(),
        p[i] == '*',
        glob_at(p, t, i, j),
    ensures
        j <= k <= t.len(),
        glob_at(p, t, i + 1, k),
    decreases t.len() - j,
{
    if glob_at(p, t, i + 1, j) {
        j
    } else {
        lemma_star_run(p, t, i, j + 1)
    }
}

proof fn lemma_only_stars(p: Seq<char>, t: Seq<char>, i: int)
    requires
        0 <= i <= p.len(),
    ensures
        only_stars(p, i) == glob_at(p, t, i, t.len() as int),
    decreases p.len() - i,
{
    if i < p.len() && p[i] == '*' {
        lemma_only_stars(p, t, i + 1);
    }
}

/// The search finds what the pattern means, wherever it stands: either the rest
/// matches from here, or the last star takes in more.
proof fn lemma_search(p: Seq<char>, t: Seq<char>, i: int, j: int, star: Option<(int, int)>)
    requires
        standing(p, t, i, j, star),
        !t.contains('*'),
        star matches Some((a, b)) ==> {
            &&& p[a] == '*'
            &&& i - (a + 1) == j - b
            &&& forall|x: int| a < x < i ==> p[x] != '*'
        },
    ensures
        search(p, t, i, j, star) == (glob_at(p, t, i, j) || (star matches Some((a, b)) && glob_at(p, t, a, b + 1))),
    decreases
            (match star {
                Some((_, b)) => t.len() - b,
                None => t.len() as int + 1,
            }),
            p.len() - i,
{
    if j == t.len() {
        lemma_only_stars(p, t, i);
        if let Some((a, b)) = star {
            if glob_at(p, t, a, b + 1) {
                let k = lemma_star_run(p, t, a, b + 1);
                lemma_plain_part(p, t, a + 1, i, k);
            }
        }
    } else if i < p.len() && (p[i] == '?' || p[i] == t[j]) {
        assert(t.contains(t[j]));
        lemma_search(p, t, i + 1, j + 1, star);
    } else if i < p.len() && p[i] == '*' {
        lemma_search(p, t, i + 1, j, Some((i, j)));
        if let Some((a, b)) = star {
            if glob_at(p, t, a, b + 1) {
                let k = lemma_star_run(p, t, a, b + 1);
                lemma_plain_part(p, t, a + 1, i, k);
                lemma_star_reaches_back(p, t, i, j, k + (i - (a + 1)));
            }
        }
    } else {
        if let Some((a, b)) = star {
            lemma_search(p, t, a + 1, b + 1, Some((a, b + 1)));
        }
    }
}

/// On a text without a `*` of its own, a pattern is found exactly where its meaning says.
pub proof fn law_search_is_meaning(p: Seq<char>, t: Seq<char>)
    requires
        !t.contains('*'),
    ensures
        search(p, t, 0, 0, None) == glob_at(p, t, 0, 0),
{
    lemma_search(p, t, 0, 0, None);
}

/// A plain piece of pattern that ends in a star matches where the piece stands.
proof fn lemma_plain_match(p: Seq<char>, q: Seq<char>, t: Seq<char>, n: int, k: int)
    requires
        p == seq!['*'] + q + seq!['*'],
        !q.contains('*'),
        !q.contains('?'),
        0 <= n <= q.len(),
        0 <= k,
        k + (q.len() - n) <= t.len(),
    ensures
        glob_at(p, t, n + 1, k) == (t.subrange(k, k + (q.len() - n)) == q.skip(n)),
    decreases q.len() - n,
{
    if n < q.len() {
        assert(p[n + 1] == q[n]);
        assert(q.contains(q[n]));
        let u = t.subrange(k, k + (q.len() - n));
        if p[n + 1] == t[k] {
            lemma_plain_match(p, q, t, n + 1, k + 1);
            let w = t.subrange(k + 1, k + 1 + (q.len() - (n + 1)));
            assert(u =~= seq![t[k]] + w);
            assert(q.skip(n) =~= seq![q[n]] + q.skip(n + 1));
            assert(u.skip(1) =~= w);
            assert(q.skip(n).skip(1) =~= q.skip(n + 1));
        } else {
            assert(u[0] != q.skip(n)[0]);
        }
    } else {
        assert(t.subrange(k, k) =~= q.skip(n));
        lemma_star_takes_all(p, t, n + 1, k);
    }
}

proof fn lemma_star_takes_all(p: Seq<char>, t: Seq<char>, i: int, k: int)
    requires
        0 <= i,
        i + 1 == p.len(),
        p[i] == '*',
        0 <= k <= t.len(),
    ensures
        glob_at(p, t, i, k),
    decreases t.len() - k,
{
    if k < t.len() {
        lemma_star_takes_all(p, t, i, k + 1);
    } else {
        assert(glob_at(p, t, i + 1, k));
    }
}

/// A pattern without wildcards is found exactly in the texts that hold it.
pub proof fn law_plain_glob_is_contains(pattern: Seq<char>, t: Seq<char>)
    requires
        !pattern.contains('*'),
        !pattern.contains('?'),
        !t.contains('*'),
    ensures
        glob_finds(pattern, t) == text::contains(t, pattern),
{
    let q = text::trim(pattern, Class::Is('*'));
    assert(q =~= pattern) by {
        if pattern.len() > 0 {
            assert(pattern.contains(pattern[0]));
            assert(pattern.contains(pattern[pattern.len() - 1]));
        }
        assert(text::trim_start(pattern, Class::Is('*')) =~= pattern);
    }
    let p = anywhere(pattern);
    law_search_is_meaning(p, t);
    if glob_at(p, t, 0, 0) {
        let k = lemma_star_run(p, t, 0, 0);
        assert forall|x: int| 1 <= x < q.len() + 1 implies p[x] != '*' by {
            assert(p[x] == q[x - 1]);
            assert(q.contains(q[x - 1]));
        }
        lemma_plain_part(p, t, 1, q.len() as int + 1, k);
        lemma_plain_match(p, q, t, 0, k);
        assert(q.skip(0) =~= q);
        assert(text::stands_at(t, k, pattern));
    }
    if text::contains(t, pattern) {
        let k = choose|k: int| text::stands_at(t, k, pattern);
        lemma_plain_match(p, q, t, 0, k);
        assert(q.skip(0) =~= q);
        assert(glob_at(p, t, 1, k));
        lemma_star_first(p, t, k);
        lemma_star_reaches_back(p, t, 0, 0, k);
    }
}

proof fn lemma_star_first(p: Seq<char>, t: Seq<char>, k: int)
    requires
        p.len() > 0,
        p[0] == '*',
        0 <= k <= t.len(),
        glob_at(p, t, 1, k),
    ensures
        glob_at(p, t, 0, k),
{
}

} // verus!
