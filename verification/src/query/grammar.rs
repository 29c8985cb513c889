//! What filters mean: a filter that is written down is read as what it says.

use super::fault::Fault;
use super::laws;
use super::lexer::{self, TokenView};
use super::matcher::{self, ExprView, MatcherView};
use super::parser;
use super::pipeline::ModifierView;
use super::stages;
use super::QueryView;
use crate::logitem::LogView;
use crate::text;
use vstd::prelude::*;

verus! {

// ---------------------------------------------------------------------------
// What is said
// ---------------------------------------------------------------------------

/// What a filter says: a term, that something is not so, that two things both are,
/// or that one of two is.
pub enum Tree {
    Term(MatcherView),
    Not(Box<Tree>),
    Both { left: Box<Tree>, right: Box<Tree>, written: bool },
    Either(Box<Tree>, Box<Tree>),
}

impl Tree {
    /// Whether it is so of a line.
    pub open spec fn means(self, log: LogView) -> bool
        decreases self,
    {
        match self {
            Tree::Term(m) => m.finds(log.content) || m.finds(log.service),
            Tree::Not(inner) => !inner.means(log),
            Tree::Both { left, right, written } => left.means(log) && right.means(log),
            Tree::Either(left, right) => left.means(log) || right.means(log),
        }
    }

    /// How tightly it is bound together.
    pub open spec fn binding(self) -> int {
        match self {
            Tree::Either(_, _) => 0,
            Tree::Both { .. } => 1,
            _ => 2,
        }
    }

    /// How it is written where only what binds at least as tightly as `level` may
    /// stand: in parentheses, if it does not. Between two things that both are so,
    /// `and` is written or left out.
    pub open spec fn printed(self, level: int) -> Seq<TokenView>
        decreases self, level,
    {
        if level > self.binding() {
            seq![TokenView::LParen] + self.printed(0) + seq![TokenView::RParen]
        } else {
            match self {
                Tree::Term(m) => seq![TokenView::Matcher(m)],
                Tree::Not(inner) => seq![TokenView::Not] + inner.printed(2),
                Tree::Both { left, right, written } => left.printed(1) + (if written {
                    seq![TokenView::And]
                } else {
                    seq![]
                }) + right.printed(2),
                Tree::Either(left, right) => left.printed(0) + seq![TokenView::Or] + right.printed(1),
            }
        }
    }
}

/// Whether a filter lets through the lines of which a tree is so, and no others.
pub open spec fn says(e: ExprView, t: Tree) -> bool {
    forall|log: LogView| #[trigger] e.holds(log) == t.means(log)
}

/// Whether the tokens `p` stand at place `i`.
pub open spec fn tokens_at(ts: Seq<TokenView>, i: int, p: Seq<TokenView>) -> bool {
    &&& 0 <= i
    &&& i + p.len() <= ts.len()
    &&& forall|k: int| 0 <= k < p.len() ==> ts[i + k] == #[trigger] p[k]
}

proof fn lemma_tokens_parts(ts: Seq<TokenView>, i: int, a: Seq<TokenView>, b: Seq<TokenView>)
    requires
        tokens_at(ts, i, a + b),
    ensures
        tokens_at(ts, i, a),
        tokens_at(ts, i + a.len(), b),
{
    let p = a + b;
    assert forall|k: int| 0 <= k < a.len() implies ts[i + k] == #[trigger] a[k] by {
        assert(p[k] == a[k]);
    }
    assert forall|k: int| 0 <= k < b.len() implies ts[i + a.len() + k] == #[trigger] b[k] by {
        assert(p[a.len() + k] == b[k]);
    }
}

proof fn lemma_both(left: ExprView, right: ExprView, log: LogView)
    ensures
        parser::and_with(left, right).holds(log) == (left.holds(log) && right.holds(log)),
        parser::or_with(left, right).holds(log) == (left.holds(log) || right.holds(log)),
{
    let b = parser::and_with(left, right);
    let o = parser::or_with(left, right);
    match left {
        ExprView::And(list) => {
            let more = list.push(right);
            matcher::law_connectives(list, right, log);
            matcher::law_connectives(more, right, log);
            assert(forall|k: int| 0 <= k < list.len() ==> #[trigger] more[k] == list[k]);
            assert(more[list.len() as int] == right);
            assert((forall|k: int| 0 <= k < more.len() ==> (#[trigger] more[k]).holds(log)) <==> ((forall|k: int|
                0 <= k < list.len() ==> (#[trigger] list[k]).holds(log)) && right.holds(log))) by {
                if forall|k: int| 0 <= k < more.len() ==> (#[trigger] more[k]).holds(log) {
                    assert forall|k: int| 0 <= k < list.len() implies (#[trigger] list[k]).holds(log) by {
                        assert(more[k].holds(log));
                    }
                    assert(more[list.len() as int].holds(log));
                }
            }
        },
        _ => {
            let two = seq![left, right];
            matcher::law_connectives(two, right, log);
            assert(two[0] == left && two[1] == right);
            if left.holds(log) && right.holds(log) {
                assert(forall|k: int| 0 <= k < two.len() ==> (#[trigger] two[k]).holds(log));
            }
        },
    }
    match left {
        ExprView::Or(list) => {
            let more = list.push(right);
            matcher::law_connectives(list, right, log);
            matcher::law_connectives(more, right, log);
            assert(forall|k: int| 0 <= k < list.len() ==> #[trigger] more[k] == list[k]);
            assert(more[list.len() as int] == right);
            if left.holds(log) {
                let k = choose|k: int| 0 <= k < list.len() && (#[trigger] list[k]).holds(log);
                assert(more[k].holds(log));
            }
            if o.holds(log) {
                let k = choose|k: int| 0 <= k < more.len() && (#[trigger] more[k]).holds(log);
                if k < list.len() {
                    assert(list[k].holds(log));
                }
            }
        },
        _ => {
            let two = seq![left, right];
            matcher::law_connectives(two, right, log);
            assert(two[0] == left && two[1] == right);
        },
    }
}

proof fn lemma_printed_nonempty(t: Tree, level: int)
    ensures
        t.printed(level).len() > 0,
        level >= 2 ==> !(t.printed(level)[0] is And) && !(t.printed(level)[0] is Or) && !(t.printed(level)[0]
            is RParen),
    decreases t, level,
{
    if level > t.binding() {
        lemma_printed_nonempty(t, 0);
    } else {
        match t {
            Tree::Term(m) => {},
            Tree::Not(inner) => {
                lemma_printed_nonempty(*inner, 2);
            },
            Tree::Both { left, right, written } => {
                lemma_printed_nonempty(*left, 1);
                lemma_printed_nonempty(*right, 2);
            },
            Tree::Either(left, right) => {
                lemma_printed_nonempty(*left, 0);
            },
        }
    }
}

/// Whether no further condition follows at `i`.
pub open spec fn ends(ts: Seq<TokenView>, i: int) -> bool {
    i == ts.len() || (0 <= i < ts.len() && (ts[i] is Or || ts[i] is RParen))
}

/// A tree that is written as a term, a negation or a parenthesis is read as it is meant.
proof fn lemma_primary(t: Tree, ts: Seq<TokenView>, i: int) -> (e: ExprView)
    requires
        tokens_at(ts, i, t.printed(2)),
    ensures
        parser::primary_at(ts, i) == Ok::<(ExprView, int), Fault>((e, (i + t.printed(2).len()) as int)),
        says(e, t),
    decreases t, 5int,
{
    let p = t.printed(2);
    lemma_printed_nonempty(t, 2);
    assert(ts[i] == p[0]) by {
        assert(ts[i + 0] == p[0]);
    }
    reveal_with_fuel(parser::primary_at, 2);
    match t {
        Tree::Term(m) => {
            let e = ExprView::Match(m);
            assert forall|log: LogView| #[trigger] e.holds(log) == t.means(log) by {
            }
            e
        },
        Tree::Not(inner) => {
            lemma_tokens_parts(ts, i, seq![TokenView::Not], inner.printed(2));
            let x = lemma_primary(*inner, ts, i + 1);
            let e = ExprView::Not(Box::new(x));
            assert forall|log: LogView| #[trigger] e.holds(log) == t.means(log) by {
                matcher::law_connectives(seq![], x, log);
                assert(x.holds(log) == inner.means(log));
            }
            e
        },
        _ => {
            let q = t.printed(0);
            let open = seq![TokenView::LParen];
            let close = seq![TokenView::RParen];
            assert(p == open + q + close);
            lemma_tokens_parts(ts, i, open + q, close);
            lemma_tokens_parts(ts, i, open, q);
            let end = i + 1 + q.len();
            assert(ts[end] is RParen) by {
                assert(ts[end + 0] == close[0]);
            }
            let e = lemma_or(t, ts, i + 1);
            assert(parser::or_rest(ts, end, e) == Ok::<(ExprView, int), Fault>((e, end)));
            e
        },
    }
}

/// A tree that is written as conditions is read as they are meant, up to where they end.
proof fn lemma_and(t: Tree, ts: Seq<TokenView>, i: int) -> (e: ExprView)
    requires
        tokens_at(ts, i, t.printed(1)),
    ensures
        parser::and_at(ts, i) == parser::and_rest(ts, (i + t.printed(1).len()) as int, e),
        says(e, t),
    decreases
            t,
            (if t.binding() == 1 {
                2int
            } else {
                6int
            }),
{
    match t {
        Tree::Both { left, right, written } => {
            let word: Seq<TokenView> = if written {
                seq![TokenView::And]
            } else {
                seq![]
            };
            let a = left.printed(1);
            let b = right.printed(2);
            assert(t.printed(1) == a + word + b);
            lemma_tokens_parts(ts, i, a + word, b);
            lemma_tokens_parts(ts, i, a, word);
            let x = lemma_and(*left, ts, i);
            let j = i + a.len();
            let k = j + word.len();
            assert((a + word).len() == a.len() + word.len());
            let y = lemma_primary(*right, ts, k);
            lemma_printed_nonempty(*right, 2);
            lemma_printed_nonempty(*left, 1);
            assert(ts[k + 0] == b[0]);
            if written {
                assert(ts[j + 0] == word[0]);
            }
            let e = parser::and_with(x, y);
            let end = k + b.len();
            reveal_with_fuel(parser::and_rest, 2);
            assert(parser::and_rest(ts, j, x) == parser::and_rest(ts, end, e));
            assert forall|log: LogView| #[trigger] e.holds(log) == t.means(log) by {
                lemma_both(x, y, log);
                assert(x.holds(log) == left.means(log));
                assert(y.holds(log) == right.means(log));
            }
            e
        },
        _ => {
            lemma_printed_nonempty(t, 2);
            assert(t.printed(1) == t.printed(2));
            lemma_primary(t, ts, i)
        },
    }
}

/// A tree that is written as alternatives is read as they are meant, up to where they end.
pub proof fn lemma_or(t: Tree, ts: Seq<TokenView>, i: int) -> (e: ExprView)
    requires
        tokens_at(ts, i, t.printed(0)),
        ends(ts, i + t.printed(0).len()),
    ensures
        parser::or_at(ts, i) == parser::or_rest(ts, (i + t.printed(0).len()) as int, e),
        says(e, t),
    decreases
            t,
            (if t.binding() == 2 {
                7int
            } else {
                4int
            }),
{
    match t {
        Tree::Either(left, right) => {
            let a = left.printed(0);
            let word = seq![TokenView::Or];
            let b = right.printed(1);
            assert(t.printed(0) == a + word + b);
            lemma_tokens_parts(ts, i, a + word, b);
            lemma_tokens_parts(ts, i, a, word);
            let j = i + a.len();
            assert(ts[j + 0] == word[0]);
            let x = lemma_or(*left, ts, i);
            let y = lemma_and(*right, ts, j + 1);
            let end = j + 1 + b.len();
            lemma_printed_nonempty(*right, 1);
            lemma_printed_nonempty(*left, 0);
            assert(parser::and_rest(ts, end, y) == Ok::<(ExprView, int), Fault>((y, end)));
            let e = parser::or_with(x, y);
            reveal_with_fuel(parser::or_rest, 2);
            assert(parser::or_rest(ts, j, x) == parser::or_rest(ts, end, e));
            assert forall|log: LogView| #[trigger] e.holds(log) == t.means(log) by {
                lemma_both(x, y, log);
                assert(x.holds(log) == left.means(log));
                assert(y.holds(log) == right.means(log));
            }
            e
        },
        _ => {
            assert(t.printed(0) == t.printed(1));
            lemma_printed_nonempty(t, 1);
            let e = lemma_and(t, ts, i);
            let end = i + t.printed(0).len();
            assert(parser::and_rest(ts, end, e) == Ok::<(ExprView, int), Fault>((e, end)));
            e
        },
    }
}

/// Whatever is said, its tokens are read to their end as a filter that lets through
/// the lines of which it is so: `or` binds loosest, then `and`, written or left out,
/// then `not`.
pub proof fn law_filter_is_what_it_says(t: Tree) -> (e: ExprView)
    ensures
        parser::or_at(t.printed(0), 0) == Ok::<(ExprView, int), Fault>((e, t.printed(0).len() as int)),
        forall|log: LogView| #[trigger] e.holds(log) == t.means(log),
{
    let ts = t.printed(0);
    lemma_printed_nonempty(t, 0);
    let e = lemma_or(t, ts, 0);
    assert(parser::or_rest(ts, ts.len() as int, e) == Ok::<(ExprView, int), Fault>((e, ts.len() as int)));
    e
}

// ---------------------------------------------------------------------------
// How it is spelled
// ---------------------------------------------------------------------------

/// How a token is spelled, with `d` for the quotes of a term. The letters before the
/// quote say what kind of term it is, and that letter case matters.
pub open spec fn spelling(t: TokenView, d: char) -> Seq<char> {
    match t {
        TokenView::And => seq!['a', 'n', 'd'],
        TokenView::Or => seq!['o', 'r'],
        TokenView::Not => seq!['n', 'o', 't'],
        TokenView::LParen => seq!['('],
        TokenView::RParen => seq![')'],
        TokenView::Matcher(m) => match m {
            MatcherView::Literal { text, case_sensitive } => (if case_sensitive {
                seq!['s']
            } else {
                seq![]
            }) + laws::in_quotes(text, d),
            MatcherView::Glob { pattern, case_sensitive } => (if case_sensitive {
                seq!['s', '~']
            } else {
                seq!['~']
            }) + laws::in_quotes(pattern, d),
            MatcherView::Regex { pattern, case_sensitive, finds } => (if case_sensitive {
                seq!['s', 'r']
            } else {
                seq!['r']
            }) + laws::in_quotes(pattern, d),
        },
    }
}

/// Whether a token can be spelled: a regular expression has to compile to what it finds.
pub open spec fn spellable(t: TokenView) -> bool {
    t matches TokenView::Matcher(m) ==> m matches MatcherView::Regex { pattern, case_sensitive, finds }
        ==> matcher::regex_result(pattern, !case_sensitive) == Ok::<Set<Seq<char>>, Seq<char>>(finds)
}

/// The tokens from the `i`-th on, spelled one behind the other with a blank `b`
/// between them; `d` gives the quotes for each.
pub open spec fn spelled_from(ts: Seq<TokenView>, i: int, b: char, d: spec_fn(int) -> char) -> Seq<char>
    decreases ts.len() - i,
{
    if 0 <= i < ts.len() {
        spelling(ts[i], d(i)) + (if i + 1 < ts.len() {
            seq![b] + spelled_from(ts, i + 1, b, d)
        } else {
            seq![]
        })
    } else {
        seq![]
    }
}

pub open spec fn spelled(ts: Seq<TokenView>, b: char, d: spec_fn(int) -> char) -> Seq<char> {
    spelled_from(ts, 0, b, d)
}

proof fn lemma_bare_word(s: Seq<char>, i: int, e: int)
    requires
        0 <= i <= e <= s.len(),
        forall|k: int| i <= k < e ==> lexer::in_word(#[trigger] s[k]),
        e == s.len() || !lexer::in_word(s[e]),
    ensures
        lexer::bare_end(s, i) == e,
    decreases e - i,
{
    if i < e {
        assert(lexer::in_word(s[i]));
        lemma_bare_word(s, i + 1, e);
    }
}

proof fn lemma_operator(t: TokenView)
    requires
        t is And || t is Or || t is Not,
    ensures
        lexer::operator(spelling(t, '"')) == Some(t),
{
    reveal_strlit("and");
    reveal_strlit("or");
    reveal_strlit("not");
    let w = spelling(t, '"');
    let l = text::ascii_lowered(w);
    assert(text::ascii_lowered("and"@)[0] == 'a');
    assert(text::ascii_lowered("or"@)[0] == 'o');
    assert(text::ascii_lowered("not"@)[0] == 'n');
    assert(l[0] == w[0]);
    match t {
        TokenView::And => {
            assert(w =~= "and"@);
        },
        TokenView::Or => {
            assert(w =~= "or"@);
        },
        _ => {
            assert(w =~= "not"@);
        },
    }
}

/// An operator is read as itself, before a blank or the end.
proof fn lemma_operator_reads(pre: Seq<char>, t: TokenView, post: Seq<char>, acc: Seq<TokenView>)
    requires
        t is And || t is Or || t is Not,
        post.len() == 0 || text::whitespace(post[0]),
    ensures
        ({
            let w = spelling(t, '"');
            let s = pre + w + post;
            lexer::lexed(s, pre.len() as int, acc) == lexer::lexed(s, (pre.len() + w.len()) as int, acc.push(t))
        }),
{
    let w = spelling(t, '"');
    let s = pre + w + post;
    let i = pre.len() as int;
    let e = i + w.len();
    assert(s[i] == w[0]);
    assert(s[i + 1] == w[1]);
    assert forall|k: int| i <= k < e implies lexer::in_word(#[trigger] s[k]) by {
        assert(s[k] == w[k - i]);
    }
    if post.len() > 0 {
        assert(s[e] == post[0]);
    }
    lemma_bare_word(s, i, e);
    assert(s.subrange(i, e) =~= w);
    assert(lexer::opening(s, i) is None);
    lemma_operator(t);
}

/// A term is read as itself: of the form that the letters before its quote give.
proof fn lemma_term_reads(
    pre: Seq<char>,
    lead: Seq<char>,
    body: Seq<char>,
    d: char,
    post: Seq<char>,
    form: lexer::Form,
    case_sensitive: bool,
    m: MatcherView,
    acc: Seq<TokenView>,
)
    requires
        matcher::quote(d),
        lead == (match (form, case_sensitive) {
            (lexer::Form::Literal, false) => seq![],
            (lexer::Form::Literal, true) => seq!['s'],
            (lexer::Form::Glob, false) => seq!['~'],
            (lexer::Form::Glob, true) => seq!['s', '~'],
            (lexer::Form::Regex, false) => seq!['r'],
            (lexer::Form::Regex, true) => seq!['s', 'r'],
        }),
        lexer::term(form, case_sensitive, body) == Ok::<MatcherView, Fault>(m),
    ensures
        ({
            let w = lead + laws::in_quotes(body, d);
            let s = pre + w + post;
            lexer::lexed(s, pre.len() as int, acc) == lexer::lexed(
                s,
                (pre.len() + w.len()) as int,
                acc.push(TokenView::Matcher(m)),
            )
        }),
{
    let q = laws::in_quotes(body, d);
    let w = lead + q;
    let s = pre + w + post;
    let i = pre.len() as int;
    let start = i + lead.len() + 1;
    assert(q[0] == d);
    assert(s[start - 1] == d);
    assert(q.len() >= 2);
    if lead.len() > 0 {
        assert(s[i] == lead[0]);
    }
    if lead.len() > 1 {
        assert(s[i + 1] == lead[1]);
    }
    assert(lexer::opening(s, i) == Some((form, case_sensitive, start)));
    let front = pre + lead + seq![d];
    laws::lemma_escaped_reads(front, body, d, post, seq![]);
    assert(front + laws::escaped(body, d) + seq![d] + post =~= s);
    assert(Seq::<char>::empty() + body =~= body);
    assert(!text::whitespace(s[i]));
}

/// A spelled token is read as that token, behind what stands before it and before
/// a blank or the end.
proof fn lemma_token_reads(pre: Seq<char>, t: TokenView, d: char, post: Seq<char>, acc: Seq<TokenView>)
    requires
        matcher::quote(d),
        spellable(t),
        post.len() == 0 || text::whitespace(post[0]),
    ensures
        ({
            let w = spelling(t, d);
            let s = pre + w + post;
            lexer::lexed(s, pre.len() as int, acc) == lexer::lexed(s, (pre.len() + w.len()) as int, acc.push(t))
        }),
{
    let w = spelling(t, d);
    let s = pre + w + post;
    match t {
        TokenView::Matcher(m) => match m {
            MatcherView::Literal { text, case_sensitive } => {
                let lead = if case_sensitive {
                    seq!['s']
                } else {
                    seq![]
                };
                lemma_term_reads(pre, lead, text, d, post, lexer::Form::Literal, case_sensitive, m, acc);
            },
            MatcherView::Glob { pattern, case_sensitive } => {
                let lead = if case_sensitive {
                    seq!['s', '~']
                } else {
                    seq!['~']
                };
                lemma_term_reads(pre, lead, pattern, d, post, lexer::Form::Glob, case_sensitive, m, acc);
            },
            MatcherView::Regex { pattern, case_sensitive, finds } => {
                let lead = if case_sensitive {
                    seq!['s', 'r']
                } else {
                    seq!['r']
                };
                lemma_term_reads(pre, lead, pattern, d, post, lexer::Form::Regex, case_sensitive, m, acc);
            },
        },
        TokenView::LParen => {
            assert(s[pre.len() as int] == w[0]);
        },
        TokenView::RParen => {
            assert(s[pre.len() as int] == w[0]);
        },
        _ => {
            lemma_operator_reads(pre, t, post, acc);
        },
    }
}

proof fn lemma_spelled_reads(pre: Seq<char>, ts: Seq<TokenView>, i: int, b: char, d: spec_fn(int) -> char)
    requires
        0 <= i <= ts.len(),
        text::whitespace(b),
        forall|k: int| 0 <= k < ts.len() ==> matcher::quote(#[trigger] d(k)),
        forall|k: int| 0 <= k < ts.len() ==> spellable(#[trigger] ts[k]),
    ensures
        lexer::lexed(pre + spelled_from(ts, i, b, d), pre.len() as int, ts.take(i)) == Ok::<Seq<TokenView>, Fault>(ts),
    decreases ts.len() - i,
{
    let rest = spelled_from(ts, i, b, d);
    let s = pre + rest;
    if i < ts.len() {
        let w = spelling(ts[i], d(i));
        let post = if i + 1 < ts.len() {
            seq![b] + spelled_from(ts, i + 1, b, d)
        } else {
            seq![]
        };
        assert(s =~= pre + w + post);
        lemma_token_reads(pre, ts[i], d(i), post, ts.take(i));
        assert(ts.take(i).push(ts[i]) =~= ts.take(i + 1));
        if i + 1 < ts.len() {
            let front = pre + w + seq![b];
            assert(s =~= front + spelled_from(ts, i + 1, b, d));
            assert(s[(pre + w).len() as int] == b);
            lemma_spelled_reads(front, ts, i + 1, b, d);
        } else {
            assert(ts.take(i + 1) =~= ts);
        }
    } else {
        assert(ts.take(i) =~= ts);
    }
}

/// Tokens that are spelled one behind the other are read as those tokens, whatever
/// blank stands between them and whatever quotes the terms are in.
pub proof fn law_spelling_reads_back(ts: Seq<TokenView>, b: char, d: spec_fn(int) -> char)
    requires
        text::whitespace(b),
        forall|k: int| 0 <= k < ts.len() ==> matcher::quote(#[trigger] d(k)),
        forall|k: int| 0 <= k < ts.len() ==> spellable(#[trigger] ts[k]),
    ensures
        lexer::tokens_of(spelled(ts, b, d)) == Ok::<Seq<TokenView>, Fault>(ts),
{
    let s = spelled(ts, b, d);
    lemma_spelled_reads(seq![], ts, 0, b, d);
    assert(Seq::<char>::empty() + s =~= s);
    assert(ts.take(0) =~= seq![]);
}

// ---------------------------------------------------------------------------
// Queries
// ---------------------------------------------------------------------------

/// Characters that mean nothing to the cutting into stages go into the stage as they are.
proof fn lemma_plain_stage(s: Seq<char>, i: int, e: int, cur: Seq<char>)
    requires
        0 <= i <= e <= s.len(),
        forall|k: int|
            i <= k < e ==> (#[trigger] s[k]) != '\\' && s[k] != '|' && !matcher::quote(s[k]),
    ensures
        stages::stages_from(s, i, cur, None, false) == stages::stages_from(
            s,
            e,
            cur + s.subrange(i, e),
            None,
            false,
        ),
    decreases e - i,
{
    if i < e {
        assert(s[i] != '|');
        lemma_plain_stage(s, i + 1, e, cur.push(s[i]));
        assert(cur.push(s[i]) + s.subrange(i + 1, e) =~= cur + s.subrange(i, e));
    } else {
        assert(cur + s.subrange(i, e) =~= cur);
    }
}

/// A term goes into the stage as it is, whatever bars it holds.
proof fn lemma_term_stage(pre: Seq<char>, lead: Seq<char>, body: Seq<char>, d: char, post: Seq<char>, cur: Seq<char>)
    requires
        matcher::quote(d),
        forall|k: int|
            0 <= k < lead.len() ==> (#[trigger] lead[k]) != '\\' && lead[k] != '|' && !matcher::quote(lead[k]),
    ensures
        ({
            let w = lead + laws::in_quotes(body, d);
            let s = pre + w + post;
            stages::stages_from(s, pre.len() as int, cur, None, false) == stages::stages_from(
                s,
                (pre.len() + w.len()) as int,
                cur + w,
                None,
                false,
            )
        }),
{
    let w = lead + laws::in_quotes(body, d);
    let s = pre + w + post;
    let i = pre.len() as int;
    let e = i + lead.len();
    assert forall|k: int| i <= k < e implies (#[trigger] s[k]) != '\\' && s[k] != '|' && !matcher::quote(s[k]) by {
        assert(s[k] == lead[k - i]);
    }
    lemma_plain_stage(s, i, e, cur);
    assert(s.subrange(i, e) =~= lead);
    assert(s[e] == d);
    let front = pre + lead + seq![d];
    let held = cur + lead + seq![d];
    assert((cur + lead).push(d) =~= held);
    laws::lemma_quoted_stage(front, body, d, post, held);
    assert(front + laws::escaped(body, d) + seq![d] + post =~= s);
    assert(held + laws::escaped(body, d) + seq![d] =~= cur + w);
}

proof fn lemma_token_stage(pre: Seq<char>, t: TokenView, d: char, post: Seq<char>, cur: Seq<char>)
    requires
        matcher::quote(d),
    ensures
        ({
            let w = spelling(t, d);
            let s = pre + w + post;
            stages::stages_from(s, pre.len() as int, cur, None, false) == stages::stages_from(
                s,
                (pre.len() + w.len()) as int,
                cur + w,
                None,
                false,
            )
        }),
{
    let w = spelling(t, d);
    let s = pre + w + post;
    let i = pre.len() as int;
    match t {
        TokenView::Matcher(m) => match m {
            MatcherView::Literal { text, case_sensitive } => {
                let lead = if case_sensitive {
                    seq!['s']
                } else {
                    seq![]
                };
                lemma_term_stage(pre, lead, text, d, post, cur);
            },
            MatcherView::Glob { pattern, case_sensitive } => {
                let lead = if case_sensitive {
                    seq!['s', '~']
                } else {
                    seq!['~']
                };
                lemma_term_stage(pre, lead, pattern, d, post, cur);
            },
            MatcherView::Regex { pattern, case_sensitive, finds } => {
                let lead = if case_sensitive {
                    seq!['s', 'r']
                } else {
                    seq!['r']
                };
                lemma_term_stage(pre, lead, pattern, d, post, cur);
            },
        },
        _ => {
            assert forall|k: int| i <= k < i + w.len() implies (#[trigger] s[k]) != '\\' && s[k] != '|'
                && !matcher::quote(s[k]) by {
                assert(s[k] == w[k - i]);
            }
            lemma_plain_stage(s, i, i + w.len(), cur);
            assert(s.subrange(i, i + w.len()) =~= w);
        },
    }
}

proof fn lemma_spelled_stage(
    pre: Seq<char>,
    ts: Seq<TokenView>,
    i: int,
    b: char,
    d: spec_fn(int) -> char,
    post: Seq<char>,
    cur: Seq<char>,
)
    requires
        0 <= i <= ts.len(),
        text::whitespace(b),
        forall|k: int| 0 <= k < ts.len() ==> matcher::quote(#[trigger] d(k)),
    ensures
        ({
            let w = spelled_from(ts, i, b, d);
            let s = pre + w + post;
            stages::stages_from(s, pre.len() as int, cur, None, false) == stages::stages_from(
                s,
                (pre.len() + w.len()) as int,
                cur + w,
                None,
                false,
            )
        }),
    decreases ts.len() - i,
{
    let rest = spelled_from(ts, i, b, d);
    let s = pre + rest + post;
    if i < ts.len() {
        let w = spelling(ts[i], d(i));
        let more = if i + 1 < ts.len() {
            seq![b] + spelled_from(ts, i + 1, b, d)
        } else {
            seq![]
        };
        assert(s =~= pre + w + (more + post));
        lemma_token_stage(pre, ts[i], d(i), more + post, cur);
        if i + 1 < ts.len() {
            let front = pre + w + seq![b];
            let held = cur + w + seq![b];
            assert((cur + w).push(b) =~= held);
            assert(s[(pre + w).len() as int] == b);
            lemma_spelled_stage(front, ts, i + 1, b, d, post, held);
            assert(s =~= front + spelled_from(ts, i + 1, b, d) + post);
            assert(held + spelled_from(ts, i + 1, b, d) =~= cur + rest);
        } else {
            assert(cur + w =~= cur + rest);
        }
    } else {
        assert(cur + rest =~= cur);
    }
}

proof fn lemma_spelling_ends(t: TokenView, d: char)
    requires
        matcher::quote(d),
    ensures
        spelling(t, d).len() > 0,
        !text::whitespace(spelling(t, d)[0]),
        !text::whitespace(spelling(t, d).last()),
{
    let w = spelling(t, d);
    if let TokenView::Matcher(m) = t {
        let body = match m {
            MatcherView::Literal { text, case_sensitive } => text,
            MatcherView::Glob { pattern, case_sensitive } => pattern,
            MatcherView::Regex { pattern, case_sensitive, finds } => pattern,
        };
        let q = laws::in_quotes(body, d);
        assert(q[0] == d && q.last() == d);
        assert(w.last() == q.last());
    }
}

proof fn lemma_spelled_ends(ts: Seq<TokenView>, i: int, b: char, d: spec_fn(int) -> char)
    requires
        0 <= i < ts.len(),
        forall|k: int| 0 <= k < ts.len() ==> matcher::quote(#[trigger] d(k)),
    ensures
        spelled_from(ts, i, b, d).len() > 0,
        !text::whitespace(spelled_from(ts, i, b, d)[0]),
        !text::whitespace(spelled_from(ts, i, b, d).last()),
    decreases ts.len() - i,
{
    let w = spelling(ts[i], d(i));
    let rest = spelled_from(ts, i, b, d);
    lemma_spelling_ends(ts[i], d(i));
    assert(rest[0] == w[0]);
    if i + 1 < ts.len() {
        let more = spelled_from(ts, i + 1, b, d);
        lemma_spelled_ends(ts, i + 1, b, d);
        assert(rest.last() == more.last());
    } else {
        assert(rest =~= w);
    }
}

/// What can be written down: with blanks, quotes and terms that can be read.
pub open spec fn writable(ts: Seq<TokenView>, b: char, d: spec_fn(int) -> char) -> bool {
    &&& text::whitespace(b)
    &&& forall|k: int| 0 <= k < ts.len() ==> matcher::quote(#[trigger] d(k))
    &&& forall|k: int| 0 <= k < ts.len() ==> spellable(#[trigger] ts[k])
}

/// A filter that is spelled out is one stage; a bar behind it begins the next.
pub proof fn law_filter_is_one_stage(ts: Seq<TokenView>, b: char, d: spec_fn(int) -> char, rest: Seq<char>)
    requires
        writable(ts, b, d),
        ts.len() > 0,
    ensures
        stages::stages_of(spelled(ts, b, d)) == seq![spelled(ts, b, d)],
        stages::stages_of(spelled(ts, b, d) + seq![b] + seq!['|'] + rest) == seq![spelled(ts, b, d) + seq![b]]
            + stages::stages_of(rest),
{
    let w = spelled(ts, b, d);
    let none = Seq::<char>::empty();
    lemma_spelled_ends(ts, 0, b, d);
    lemma_spelled_stage(none, ts, 0, b, d, none, none);
    assert(none + w + none =~= w);
    assert(none + w =~= w);
    let post = seq![b] + seq!['|'] + rest;
    let s = w + seq![b] + seq!['|'] + rest;
    lemma_spelled_stage(none, ts, 0, b, d, post, none);
    assert(none + w + post =~= s);
    let n = w.len() as int;
    assert(s[n] == b);
    assert(w.push(b) =~= w + seq![b]);
    assert(s[n + 1] == '|');
    reveal_with_fuel(stages::stages_from, 3);
    laws::lemma_stages_behind(w + seq![b] + seq!['|'], rest, 0, none, None, false);
    assert(w + seq![b] + seq!['|'] + rest =~= s);
}

/// The step that a spelled filter stands for, where its first word is no keyword.
proof fn lemma_filter_stage(t: Tree, b: char, d: spec_fn(int) -> char) -> (e: ExprView)
    requires
        writable(t.printed(0), b, d),
        !stages::is_keyword(stages::stage_parts(spelled(t.printed(0), b, d)).0),
    ensures
        stages::modifier_of(spelled(t.printed(0), b, d)) == Ok::<Option<ModifierView>, Fault>(
            Some(ModifierView::Filter(e)),
        ),
        stages::stage_fits(spelled(t.printed(0), b, d)),
        says(e, t),
        t.printed(0).len() > 0,
{
    let ts = t.printed(0);
    lemma_printed_nonempty(t, 0);
    law_spelling_reads_back(ts, b, d);
    law_filter_is_what_it_says(t)
}

/// A query that is one filter accepts the lines of which the filter is so.
pub proof fn law_query_is_what_it_says(t: Tree, b: char, d: spec_fn(int) -> char) -> (q: QueryView)
    requires
        writable(t.printed(0), b, d),
        !stages::is_keyword(stages::stage_parts(spelled(t.printed(0), b, d)).0),
    ensures
        super::query_of(spelled(t.printed(0), b, d)) == Ok::<QueryView, Fault>(q),
        super::query_fits(spelled(t.printed(0), b, d)),
        !q.streams(),
        forall|log: LogView, now: u64| #[trigger] q.accepts(log, now) == t.means(log),
{
    let ts = t.printed(0);
    let w = spelled(ts, b, d);
    let e = lemma_filter_stage(t, b, d);
    lemma_spelled_ends(ts, 0, b, d);
    laws::lemma_trimmed(w);
    law_filter_is_one_stage(ts, b, d, seq![]);
    reveal_with_fuel(super::query_from, 2);
    reveal_with_fuel(super::stages_fit, 2);
    let q = QueryView { base: Some(e), pipeline: seq![] };
    assert forall|log: LogView, now: u64| #[trigger] q.accepts(log, now) == t.means(log) by {
        assert(e.holds(log) == t.means(log));
    }
    q
}

proof fn lemma_trimmed_blank(w: Seq<char>, b: char)
    requires
        w.len() > 0,
        !text::whitespace(w[0]),
        !text::whitespace(w.last()),
        text::whitespace(b),
    ensures
        text::trimmed(w + seq![b]) == w,
        text::trimmed(seq![b] + w) == w,
{
    let x = w + seq![b];
    let n = w.len() as int;
    reveal_with_fuel(text::run_start, 3);
    reveal_with_fuel(text::run_end, 3);
    assert(x[0] == w[0] && x[n] == b && x[n - 1] == w.last());
    assert(x.skip(0) =~= x);
    assert(x.take(n) =~= w);
    let y = seq![b] + w;
    assert(y[0] == b && y[1] == w[0]);
    assert(y.skip(1) =~= w);
    assert(w.take(n) =~= w);
}

/// A filter behind a bar narrows the one before it: the query accepts the lines of
/// which both are so.
pub proof fn law_bar_narrows(t: Tree, u: Tree, b: char, d: spec_fn(int) -> char) -> (q: QueryView)
    requires
        writable(t.printed(0), b, d),
        writable(u.printed(0), b, d),
        !stages::is_keyword(stages::stage_parts(spelled(t.printed(0), b, d)).0),
        !stages::is_keyword(stages::stage_parts(spelled(u.printed(0), b, d)).0),
    ensures
        super::query_of(spelled(t.printed(0), b, d) + seq![b] + seq!['|'] + (seq![b] + spelled(u.printed(0), b, d)))
            == Ok::<QueryView, Fault>(q),
        !q.streams(),
        forall|log: LogView, now: u64| #[trigger]
            q.accepts(log, now) == (t.means(log) && u.means(log)),
{
    let w = spelled(t.printed(0), b, d);
    let x = spelled(u.printed(0), b, d);
    let e = lemma_filter_stage(t, b, d);
    let f = lemma_filter_stage(u, b, d);
    lemma_spelled_ends(t.printed(0), 0, b, d);
    lemma_spelled_ends(u.printed(0), 0, b, d);
    let rest = seq![b] + x;
    let s = w + seq![b] + seq!['|'] + rest;
    law_filter_is_one_stage(t.printed(0), b, d, rest);
    let none = Seq::<char>::empty();
    assert(none.push(b) =~= seq![b]);
    assert(rest[0] == b);
    lemma_spelled_stage(seq![b], u.printed(0), 0, b, d, none, seq![b]);
    assert(seq![b] + x + none =~= rest);
    assert(stages::stages_of(rest) == seq![rest]);
    let all = stages::stages_of(s);
    assert(all =~= seq![w + seq![b], rest]);
    lemma_trimmed_blank(w, b);
    lemma_trimmed_blank(x, b);
    assert(s[0] == w[0]);
    assert(s.last() == x.last());
    laws::lemma_trimmed(s);
    let q = QueryView { base: Some(e), pipeline: seq![ModifierView::Filter(f)] };
    reveal_with_fuel(super::query_from, 3);
    assert(Seq::<ModifierView>::empty().push(ModifierView::Filter(f)) =~= seq![ModifierView::Filter(f)]);
    assert forall|log: LogView, now: u64| #[trigger] q.accepts(log, now) == (t.means(log) && u.means(log)) by {
        assert(e.holds(log) == t.means(log));
        assert(f.holds(log) == u.means(log));
        reveal_with_fuel(QueryView::lets_through, 2);
    }
    q
}

} // verus!
