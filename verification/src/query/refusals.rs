//! Which queries are refused, and why.

use super::fault::Fault;
use super::grammar::{self, Tree};
use super::keywords;
use super::lexer::{self, TokenView};
use super::matcher::ExprView;
use super::parser;
use super::pipeline::ModifierView;
use super::stages;
use super::time;
use crate::numbers;
use crate::text;
use vstd::prelude::*;

verus! {

/// A filter cannot begin with an operator between two terms or with a closing
/// parenthesis, and a negation needs something to negate.
pub proof fn law_misplaced_tokens(ts: Seq<TokenView>)
    requires
        ts.len() > 0,
    ensures
        ts[0] is And ==> parser::or_at(ts, 0) == Err::<(ExprView, int), Fault>(Fault::UnexpectedAnd),
        ts[0] is Or ==> parser::or_at(ts, 0) == Err::<(ExprView, int), Fault>(Fault::UnexpectedOr),
        ts[0] is RParen ==> parser::or_at(ts, 0) == Err::<(ExprView, int), Fault>(Fault::UnexpectedClose),
        ts[0] is Not && ts.len() == 1 ==> parser::or_at(ts, 0) == Err::<(ExprView, int), Fault>(Fault::End),
        ts[0] is LParen && ts.len() == 1 ==> parser::or_at(ts, 0) == Err::<(ExprView, int), Fault>(Fault::End),
{
    reveal_with_fuel(parser::primary_at, 3);
    reveal_with_fuel(parser::or_at, 2);
    reveal_with_fuel(parser::and_at, 2);
    if ts[0] is LParen && ts.len() == 1 {
        assert(parser::primary_at(ts, 1) == Err::<(ExprView, int), Fault>(Fault::End));
        assert(parser::and_at(ts, 1) == Err::<(ExprView, int), Fault>(Fault::End));
        assert(parser::or_at(ts, 1) == Err::<(ExprView, int), Fault>(Fault::End));
        assert(parser::primary_at(ts, 0) == Err::<(ExprView, int), Fault>(Fault::End));
    }
}

/// A parenthesis that is opened must be closed.
pub proof fn law_unclosed_parenthesis(t: Tree)
    ensures
        parser::or_at(seq![TokenView::LParen] + t.printed(0), 0) == Err::<(ExprView, int), Fault>(Fault::Unclosed),
{
    let p = t.printed(0);
    let ts = seq![TokenView::LParen] + p;
    assert(grammar::tokens_at(ts, 1, p));
    let e = grammar::lemma_or(t, ts, 1);
    assert(parser::or_at(ts, 1) == parser::or_rest(ts, ts.len() as int, e));
    assert(parser::primary_at(ts, 0) == Err::<(ExprView, int), Fault>(Fault::Unclosed));
}

/// A word that is neither quoted nor an operator is refused, and named.
pub proof fn law_unquoted_word(w: Seq<char>)
    requires
        w.len() > 0,
        forall|i: int| 0 <= i < w.len() ==> lexer::in_word(#[trigger] w[i]),
        lexer::opening(w, 0) is None,
        lexer::operator(w) is None,
    ensures
        lexer::tokens_of(w) == Err::<Seq<TokenView>, Fault>(Fault::Unquoted(w)),
        parser::filter_of(w) == Err::<Option<ExprView>, Fault>(Fault::Unquoted(w)),
{
    lemma_bare(w, 0);
    assert(lexer::in_word(w[0]));
    assert(w.subrange(0, w.len() as int) =~= w);
}

proof fn lemma_bare(w: Seq<char>, i: int)
    requires
        0 <= i <= w.len(),
        forall|i: int| 0 <= i < w.len() ==> lexer::in_word(#[trigger] w[i]),
    ensures
        lexer::bare_end(w, i) == w.len(),
    decreases w.len() - i,
{
    if i < w.len() {
        assert(lexer::in_word(w[i]));
        lemma_bare(w, i + 1);
    }
}

/// A keyword whose argument is no number, or no span of time where it asks for one, is
/// refused with that argument.
pub proof fn law_bad_arguments(k: Seq<char>, b: char, a: Seq<char>)
    requires
        keywords::is_word(k),
        text::whitespace(b),
        keywords::is_argument(a),
        numbers::read_usize(a) is None,
        time::duration_of(a) is None,
    ensures
        ({
            let read = stages::modifier_of(keywords::stage(k, b, a));
            let w = text::lowercase(k);
            &&& w == "first"@ || w == "last"@ ==> read == Err::<Option<ModifierView>, Fault>(Fault::Number(a))
            &&& w == "after"@ ==> read == Err::<Option<ModifierView>, Fault>(Fault::After(a))
            &&& w == "before"@ ==> read == Err::<Option<ModifierView>, Fault>(Fault::Before(a))
            &&& w == "since"@ ==> read == Err::<Option<ModifierView>, Fault>(Fault::Since(a))
            &&& (w == "dedup"@ || w == "deduplicate"@) && !text::same_ignoring_case(a, "all"@) ==> read == Err::<
                Option<ModifierView>,
                Fault,
            >(Fault::Dedup(a))
        }),
{
    keywords::lemma_parts(k, b, a);
    keywords::lemma_keywords();
}

/// A stage that is refused makes the query refused for the same reason, whatever follows.
pub proof fn law_refused_stage_refuses_query(input: Seq<char>, e: Fault)
    requires
        ({
            let all = stages::stages_of(text::trimmed(input));
            &&& all.len() > 0
            &&& text::trimmed(all[0]).len() > 0
            &&& stages::modifier_of(text::trimmed(all[0])) == Err::<Option<ModifierView>, Fault>(e)
        }),
    ensures
        super::query_of(input) == Err::<super::QueryView, Fault>(e),
{
}

} // verus!
