//! What a line is searched for: literals, patterns, regular expressions, and
//! their combinations.

use super::glob::{self, glob_contains};
use crate::logitem::{LogItem, LogView};
use crate::text::{self, chars_of, same_str, str_has, to_lower};
use vstd::prelude::*;

verus! {

#[verifier::external_type_specification]
#[verifier::external_body]
pub struct ExRegex(regex::Regex);

/// The texts in which a compiled expression is found.
pub uninterp spec fn regex_texts(re: regex::Regex) -> Set<Seq<char>>;

/// What compiling an expression gives: the texts in which it is found, or the
/// words of the error.
pub uninterp spec fn regex_result(pattern: Seq<char>, any_case: bool) -> Result<Set<Seq<char>>, Seq<char>>;

/// What a compiled expression, or the words of an error, stand for.
pub open spec fn compiled_view(r: Result<regex::Regex, String>) -> Result<Set<Seq<char>>, Seq<char>> {
    match r {
        Ok(re) => Ok(regex_texts(re)),
        Err(m) => Err(m@),
    }
}

/// `regex::RegexBuilder::build`, with `case_insensitive` set as given: compiles
/// the expression or says what is wrong with it. Which it is, the texts that the
/// expression is found in and the words of the error depend on the two arguments alone.
#[verifier::external_body]
pub(crate) fn build_regex(pattern: &str, any_case: bool) -> (r: Result<regex::Regex, String>)
    ensures
        compiled_view(r) == regex_result(pattern@, any_case),
{
    match regex::RegexBuilder::new(pattern).case_insensitive(any_case).build() {
        Ok(re) => Ok(re),
        Err(e) => Err(e.to_string()),
    }
}

/// `regex::Regex::is_match`: whether the expression is found in the text.
#[verifier::external_body]
pub(crate) fn regex_is_match(re: &regex::Regex, txt: &str) -> (r: bool)
    ensures
        r == regex_texts(*re).contains(txt@),
{
    re.is_match(txt)
}

/// `<regex::Regex as Clone>::clone`: the copy is found in the same texts.
#[verifier::external_body]
pub(crate) fn copy_regex(re: &regex::Regex) -> (r: regex::Regex)
    ensures
        regex_texts(r) == regex_texts(*re),
{
    re.clone()
}

/// What a term of a query looks for.
#[derive(Debug)]
pub enum Matcher {
    Literal { text: String, case_sensitive: bool },
    Glob { pattern: String, case_sensitive: bool },
    Regex { pattern: String, case_sensitive: bool, compiled: regex::Regex },
}

/// What a matcher holds; of a compiled expression, the texts that it is found in.
pub enum MatcherView {
    Literal { text: Seq<char>, case_sensitive: bool },
    Glob { pattern: Seq<char>, case_sensitive: bool },
    Regex { pattern: Seq<char>, case_sensitive: bool, finds: Set<Seq<char>> },
}

impl View for Matcher {
    type V = MatcherView;

    open spec fn view(&self) -> MatcherView {
        match self {
            Matcher::Literal { text, case_sensitive } => MatcherView::Literal {
                text: text@,
                case_sensitive: *case_sensitive,
            },
            Matcher::Glob { pattern, case_sensitive } => MatcherView::Glob {
                pattern: pattern@,
                case_sensitive: *case_sensitive,
            },
            Matcher::Regex { pattern, case_sensitive, compiled } => MatcherView::Regex {
                pattern: pattern@,
                case_sensitive: *case_sensitive,
                finds: regex_texts(*compiled),
            },
        }
    }
}

impl Clone for Matcher {
    fn clone(&self) -> (r: Matcher)
        ensures
            r@ == self@,
    {
        match self {
            Matcher::Literal { text, case_sensitive } => Matcher::Literal {
                text: text.clone(),
                case_sensitive: *case_sensitive,
            },
            Matcher::Glob { pattern, case_sensitive } => Matcher::Glob {
                pattern: pattern.clone(),
                case_sensitive: *case_sensitive,
            },
            Matcher::Regex { pattern, case_sensitive, compiled } => Matcher::Regex {
                pattern: pattern.clone(),
                case_sensitive: *case_sensitive,
                compiled: copy_regex(compiled),
            },
        }
    }
}

impl PartialEq for Matcher {
    fn eq(&self, other: &Self) -> (r: bool) {
        match (self, other) {
            (
                Matcher::Literal { text: t1, case_sensitive: c1 },
                Matcher::Literal { text: t2, case_sensitive: c2 },
            ) => same_str(t1.as_str(), t2.as_str()) && *c1 == *c2,
            (
                Matcher::Glob { pattern: p1, case_sensitive: c1 },
                Matcher::Glob { pattern: p2, case_sensitive: c2 },
            ) => same_str(p1.as_str(), p2.as_str()) && *c1 == *c2,
            (
                Matcher::Regex { pattern: p1, case_sensitive: c1, compiled: _ },
                Matcher::Regex { pattern: p2, case_sensitive: c2, compiled: _ },
            ) => same_str(p1.as_str(), p2.as_str()) && *c1 == *c2,
            _ => false,
        }
    }
}

impl vstd::std_specs::cmp::PartialEqSpecImpl for Matcher {
    open spec fn obeys_eq_spec() -> bool {
        true
    }

    open spec fn eq_spec(&self, other: &Self) -> bool {
        match (self, other) {
            (
                Matcher::Literal { text: t1, case_sensitive: c1 },
                Matcher::Literal { text: t2, case_sensitive: c2 },
            ) => t1@ == t2@ && c1 == c2,
            (
                Matcher::Glob { pattern: p1, case_sensitive: c1 },
                Matcher::Glob { pattern: p2, case_sensitive: c2 },
            ) => p1@ == p2@ && c1 == c2,
            (
                Matcher::Regex { pattern: p1, case_sensitive: c1, compiled: _ },
                Matcher::Regex { pattern: p2, case_sensitive: c2, compiled: _ },
            ) => p1@ == p2@ && c1 == c2,
            _ => false,
        }
    }
}

/// One of the three characters that can quote a term.
pub open spec fn quote(c: char) -> bool {
    c == '"' || c == '\'' || c == '`'
}

pub fn is_quote_char(c: char) -> (r: bool)
    ensures
        r == quote(c),
{
    c == '"' || c == '\'' || c == '`'
}

/// Whether a character of a term stands for a character of a text: each stands for
/// itself, and the double quote for an apostrophe too.
pub open spec fn stands_for(n: char, c: char) -> bool {
    n == c || (n == '"' && c == '\'')
}

/// Whether the term `n` is met at place `i` of `h`.
pub open spec fn met_at(h: Seq<char>, i: int, n: Seq<char>) -> bool {
    &&& 0 <= i
    &&& i + n.len() <= h.len()
    &&& forall|j: int| 0 <= j < n.len() ==> stands_for(#[trigger] n[j], h[i + j])
}

/// Whether the term `n` is met somewhere in `h`.
pub open spec fn met(h: Seq<char>, n: Seq<char>) -> bool {
    exists|i: int| #[trigger] met_at(h, i, n)
}

fn is_met_at(h: &[char], i: usize, n: &[char]) -> (r: bool)
    requires
        i + n@.len() <= h@.len(),
    ensures
        r == met_at(h@, i as int, n@),
{
    let mut j: usize = 0;
    let len: usize = h.len();
    while j < n.len()
        invariant
            len == h@.len(),
            i + n@.len() <= len,
            j <= n@.len(),
            forall|k: int| 0 <= k < j ==> stands_for(#[trigger] n@[k], h@[i + k]),
        decreases n@.len() - j,
    {
        let c: char = h[i + j];
        if n[j] != c && !(n[j] == '"' && c == '\'') {
            assert(!stands_for(n@[j as int], h@[i + j]));
            return false;
        }
        j += 1;
    }
    true
}

fn is_met(h: &[char], n: &[char]) -> (r: bool)
    ensures
        r == met(h@, n@),
{
    if n.len() > h.len() {
        return false;
    }
    let last: usize = h.len() - n.len();
    let mut i: usize = 0;
    while i <= last
        invariant
            last == h@.len() - n@.len(),
            i <= last + 1,
            forall|k: int| 0 <= k < i ==> !#[trigger] met_at(h@, k, n@),
        decreases last + 1 - i,
    {
        if is_met_at(h, i, n) {
            return true;
        }
        if i == last {
            assert forall|k: int| !#[trigger] met_at(h@, k, n@) by {
                if 0 <= k < i {
                }
            }
            return false;
        }
        i += 1;
    }
    false
}

/// Whether the term is met in the text, whatever the letter case of the two.
fn meets_ignoring_case(t: &str, term: &str) -> (r: bool)
    ensures
        r == met(text::lowercase(t@), text::lowercase(term@)),
{
    let h = chars_of(to_lower(t).as_str());
    let n = chars_of(to_lower(term).as_str());
    is_met(h.as_slice(), n.as_slice())
}

impl MatcherView {
    /// Whether the term is found in the text.
    pub open spec fn finds(self, t: Seq<char>) -> bool {
        match self {
            MatcherView::Literal { text, case_sensitive } => if case_sensitive {
                text::contains(t, text)
            } else {
                met(text::lowercase(t), text::lowercase(text))
            },
            MatcherView::Glob { pattern, case_sensitive } => if case_sensitive {
                glob::glob_finds(pattern, t)
            } else {
                glob::glob_finds(text::lowercase(pattern), text::lowercase(t))
            },
            MatcherView::Regex { finds, .. } => finds.contains(t),
        }
    }
}

/// Whether a term is found in the content of a line or in the name of its service.
pub fn eval_matcher(matcher: &Matcher, content: &str, service: &str) -> (r: bool)
    ensures
        r == (matcher@.finds(content@) || matcher@.finds(service@)),
{
    match matcher {
        Matcher::Literal { text, case_sensitive } => {
            if *case_sensitive {
                str_has(content, text.as_str()) || str_has(service, text.as_str())
            } else {
                meets_ignoring_case(content, text.as_str()) || meets_ignoring_case(service, text.as_str())
            }
        },
        Matcher::Glob { pattern, case_sensitive } => {
            if *case_sensitive {
                glob_contains(pattern.as_str(), content) || glob_contains(pattern.as_str(), service)
            } else {
                let target = to_lower(pattern.as_str());
                glob_contains(target.as_str(), to_lower(content).as_str()) || glob_contains(
                    target.as_str(),
                    to_lower(service).as_str(),
                )
            }
        },
        Matcher::Regex { compiled, .. } => regex_is_match(compiled, content) || regex_is_match(compiled, service),
    }
}

/// A filter: a term, or a combination of filters.
#[derive(Debug, PartialEq)]
pub enum Expr {
    Match(Matcher),
    Not(Box<Expr>),
    And(Vec<Expr>),
    Or(Vec<Expr>),
}

/// What a filter holds.
pub enum ExprView {
    Match(MatcherView),
    Not(Box<ExprView>),
    And(Seq<ExprView>),
    Or(Seq<ExprView>),
}

/// What each filter of a list holds.
pub open spec fn exprs_view(v: Seq<Expr>) -> Seq<ExprView>
    decreases v, 0int,
{
    Seq::new(
        v.len(),
        |i: int|
            if 0 <= i < v.len() {
                expr_view(v[i])
            } else {
                arbitrary()
            },
    )
}

pub open spec fn expr_view(e: Expr) -> ExprView
    decreases e, 1int,
{
    match e {
        Expr::Match(m) => ExprView::Match(m@),
        Expr::Not(inner) => ExprView::Not(Box::new(expr_view(*inner))),
        Expr::And(subs) => ExprView::And(exprs_view(subs@)),
        Expr::Or(subs) => ExprView::Or(exprs_view(subs@)),
    }
}

impl View for Expr {
    type V = ExprView;

    open spec fn view(&self) -> ExprView {
        expr_view(*self)
    }
}

impl ExprView {
    /// Whether the filter lets a line through.
    pub open spec fn holds(self, log: LogView) -> bool
        decreases self, 0int,
    {
        match self {
            ExprView::Match(m) => m.finds(log.content) || m.finds(log.service),
            ExprView::Not(inner) => !inner.holds(log),
            ExprView::And(subs) => all_hold(subs, 0, log),
            ExprView::Or(subs) => any_holds(subs, 0, log),
        }
    }
}

/// Whether all filters of the list from `i` on let the line through.
pub open spec fn all_hold(subs: Seq<ExprView>, i: int, log: LogView) -> bool
    decreases subs, subs.len() - i,
{
    if 0 <= i < subs.len() {
        subs[i].holds(log) && all_hold(subs, i + 1, log)
    } else {
        true
    }
}

/// Whether some filter of the list from `i` on lets the line through.
pub open spec fn any_holds(subs: Seq<ExprView>, i: int, log: LogView) -> bool
    decreases subs, subs.len() - i,
{
    if 0 <= i < subs.len() {
        subs[i].holds(log) || any_holds(subs, i + 1, log)
    } else {
        false
    }
}

proof fn lemma_lists(subs: Seq<ExprView>, i: int, log: LogView)
    requires
        0 <= i <= subs.len(),
    ensures
        all_hold(subs, i, log) <==> forall|k: int| i <= k < subs.len() ==> (#[trigger] subs[k]).holds(log),
        any_holds(subs, i, log) <==> exists|k: int| i <= k < subs.len() && (#[trigger] subs[k]).holds(log),
    decreases subs.len() - i,
{
    if i < subs.len() {
        lemma_lists(subs, i + 1, log);
    }
}

/// A conjunction lets through what every part lets through, a disjunction what
/// some part does, and a negation what its part does not.
pub proof fn law_connectives(subs: Seq<ExprView>, inner: ExprView, log: LogView)
    ensures
        ExprView::And(subs).holds(log) <==> forall|k: int| 0 <= k < subs.len() ==> (#[trigger] subs[k]).holds(log),
        ExprView::Or(subs).holds(log) <==> exists|k: int| 0 <= k < subs.len() && (#[trigger] subs[k]).holds(log),
        ExprView::Not(Box::new(inner)).holds(log) <==> !inner.holds(log),
{
    reveal_with_fuel(ExprView::holds, 2);
    lemma_lists(subs, 0, log);
}

pub fn eval_expr(expr: &Expr, log: &LogItem) -> (r: bool)
    ensures
        r == expr@.holds(log@),
    decreases expr,
{
    match expr {
        Expr::Match(matcher) => eval_matcher(matcher, log.content.as_str(), log.service.as_str()),
        Expr::Not(inner) => !eval_expr(inner, log),
        Expr::And(subs) => {
            let ghost views = exprs_view(subs@);
            assert(expr@ == ExprView::And(views));
            let mut i: usize = 0;
            while i < subs.len()
                invariant
                    i <= subs@.len(),
                    *expr == Expr::And(*subs),
                    views == exprs_view(subs@),
                    expr@.holds(log@) == all_hold(views, i as int, log@),
                decreases subs@.len() - i,
            {
                assert(decreases_to!(expr => expr->And_0@[i as int]));
                assert(views[i as int] == subs@[i as int]@);
                if !eval_expr(&subs[i], log) {
                    return false;
                }
                i += 1;
            }
            true
        },
        Expr::Or(subs) => {
            let ghost views = exprs_view(subs@);
            assert(expr@ == ExprView::Or(views));
            let mut i: usize = 0;
            while i < subs.len()
                invariant
                    i <= subs@.len(),
                    *expr == Expr::Or(*subs),
                    views == exprs_view(subs@),
                    expr@.holds(log@) == any_holds(views, i as int, log@),
                decreases subs@.len() - i,
            {
                assert(decreases_to!(expr => expr->Or_0@[i as int]));
                assert(views[i as int] == subs@[i as int]@);
                if eval_expr(&subs[i], log) {
                    return true;
                }
                i += 1;
            }
            false
        },
    }
}

fn copy_expr(e: &Expr) -> (r: Expr)
    ensures
        r@ == e@,
    decreases e,
{
    match e {
        Expr::Match(m) => Expr::Match(m.clone()),
        Expr::Not(inner) => Expr::Not(Box::new(copy_expr(inner))),
        Expr::And(subs) => {
            let mut v: Vec<Expr> = Vec::new();
            let mut i: usize = 0;
            while i < subs.len()
                invariant
                    i <= subs@.len(),
                    *e == Expr::And(*subs),
                    exprs_view(v@) == exprs_view(subs@).take(i as int),
                decreases subs@.len() - i,
            {
                assert(decreases_to!(e => e->And_0@[i as int]));
                let ghost before = v@;
                let x = copy_expr(&subs[i]);
                v.push(x);
                assert(exprs_view(v@) =~= exprs_view(before).push(x@));
                assert(exprs_view(subs@)[i as int] == subs@[i as int]@);
                i += 1;
                assert(exprs_view(v@) =~= exprs_view(subs@).take(i as int));
            }
            assert(exprs_view(v@) =~= exprs_view(subs@));
            Expr::And(v)
        },
        Expr::Or(subs) => {
            let mut v: Vec<Expr> = Vec::new();
            let mut i: usize = 0;
            while i < subs.len()
                invariant
                    i <= subs@.len(),
                    *e == Expr::Or(*subs),
                    exprs_view(v@) == exprs_view(subs@).take(i as int),
                decreases subs@.len() - i,
            {
                assert(decreases_to!(e => e->Or_0@[i as int]));
                let ghost before = v@;
                let x = copy_expr(&subs[i]);
                v.push(x);
                assert(exprs_view(v@) =~= exprs_view(before).push(x@));
                assert(exprs_view(subs@)[i as int] == subs@[i as int]@);
                i += 1;
                assert(exprs_view(v@) =~= exprs_view(subs@).take(i as int));
            }
            assert(exprs_view(v@) =~= exprs_view(subs@));
            Expr::Or(v)
        },
    }
}

impl Clone for Expr {
    fn clone(&self) -> (r: Expr)
        ensures
            r@ == self@,
    {
        copy_expr(self)
    }
}

} // verus!
