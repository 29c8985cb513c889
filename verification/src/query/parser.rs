//! Reading a filter from its tokens: `or` binds loosest, then `and`, which may
//! be left out between two terms, then `not` and parentheses.

use super::fault::{Fault, QueryError};
use super::lexer::{self, tokenize_stage, Token, TokenView};
use super::matcher::{self, Expr, ExprView};
use vstd::prelude::*;

verus! {

/// `left` with one more alternative.
pub open spec fn or_with(left: ExprView, right: ExprView) -> ExprView {
    match left {
        ExprView::Or(list) => ExprView::Or(list.push(right)),
        other => ExprView::Or(seq![other, right]),
    }
}

/// `left` with one more condition.
pub open spec fn and_with(left: ExprView, right: ExprView) -> ExprView {
    match left {
        ExprView::And(list) => ExprView::And(list.push(right)),
        other => ExprView::And(seq![other, right]),
    }
}

/// A filter and the place behind it, or what is wrong.
pub type Parsed = Result<(ExprView, int), Fault>;

/// The alternatives that begin at `i`.
pub open spec fn or_at(ts: Seq<TokenView>, i: int) -> Parsed
    decreases ts.len() - i, 3int,
{
    match and_at(ts, i) {
        Ok((left, j)) => if i < j <= ts.len() {
            or_rest(ts, j, left)
        } else {
            Err(Fault::End)
        },
        Err(e) => Err(e),
    }
}

/// The further alternatives at `i`.
pub open spec fn or_rest(ts: Seq<TokenView>, i: int, left: ExprView) -> Parsed
    decreases ts.len() - i, 4int,
{
    if 0 <= i < ts.len() && ts[i] is Or {
        match and_at(ts, i + 1) {
            Ok((right, j)) => if i < j <= ts.len() {
                or_rest(ts, j, or_with(left, right))
            } else {
                Err(Fault::End)
            },
            Err(e) => Err(e),
        }
    } else {
        Ok((left, i))
    }
}

/// The conditions that begin at `i`.
pub open spec fn and_at(ts: Seq<TokenView>, i: int) -> Parsed
    decreases ts.len() - i, 2int,
{
    match primary_at(ts, i) {
        Ok((left, j)) => if i < j <= ts.len() {
            and_rest(ts, j, left)
        } else {
            Err(Fault::End)
        },
        Err(e) => Err(e),
    }
}

/// The further conditions at `i`.
pub open spec fn and_rest(ts: Seq<TokenView>, i: int, left: ExprView) -> Parsed
    decreases ts.len() - i, 5int,
{
    if !(0 <= i < ts.len()) {
        Ok((left, i))
    } else if ts[i] is And || ts[i] is Not || ts[i] is LParen || ts[i] is Matcher {
        let from = if ts[i] is And {
            i + 1
        } else {
            i
        };
        match primary_at(ts, from) {
            Ok((right, j)) => if i < j <= ts.len() {
                and_rest(ts, j, and_with(left, right))
            } else {
                Err(Fault::End)
            },
            Err(e) => Err(e),
        }
    } else {
        Ok((left, i))
    }
}

/// The term, the negation or the parenthesis at `i`.
pub open spec fn primary_at(ts: Seq<TokenView>, i: int) -> Parsed
    decreases ts.len() - i, 1int,
{
    if !(0 <= i < ts.len()) {
        Err(Fault::End)
    } else {
        match ts[i] {
            TokenView::Not => match primary_at(ts, i + 1) {
                Ok((inner, j)) => Ok((ExprView::Not(Box::new(inner)), j)),
                Err(e) => Err(e),
            },
            TokenView::LParen => match or_at(ts, i + 1) {
                Ok((e, j)) => if 0 <= j < ts.len() && ts[j] is RParen {
                    Ok((e, j + 1))
                } else {
                    Err(Fault::Unclosed)
                },
                Err(e) => Err(e),
            },
            TokenView::Matcher(m) => Ok((ExprView::Match(m), i + 1)),
            TokenView::And => Err(Fault::UnexpectedAnd),
            TokenView::Or => Err(Fault::UnexpectedOr),
            TokenView::RParen => Err(Fault::UnexpectedClose),
        }
    }
}

/// The filter that a text stands for; what follows a complete filter is left unread.
pub open spec fn filter_of(s: Seq<char>) -> Result<Option<ExprView>, Fault> {
    match lexer::tokens_of(s) {
        Err(e) => Err(e),
        Ok(ts) => if ts.len() == 0 {
            Ok(None)
        } else {
            match or_at(ts, 0) {
                Ok((e, _)) => Ok(Some(e)),
                Err(e) => Err(e),
            }
        },
    }
}

/// What was read agrees with what stands there.
pub open spec fn agrees(r: Result<(Expr, usize), QueryError>, p: Parsed) -> bool {
    match r {
        Ok((e, j)) => p == Ok::<(ExprView, int), Fault>((e@, j as int)),
        Err(e) => p == Err::<(ExprView, int), Fault>(e@),
    }
}

fn join_or(left: Expr, right: Expr) -> (r: Expr)
    ensures
        r@ == or_with(left@, right@),
{
    match left {
        Expr::Or(list) => {
            let ghost views = matcher::exprs_view(list@);
            assert(left@ == ExprView::Or(views));
            let mut list = list;
            list.push(right);
            assert(matcher::exprs_view(list@) =~= views.push(right@));
            let r = Expr::Or(list);
            assert(r@ == ExprView::Or(matcher::exprs_view(list@)));
            r
        },
        other => {
            let mut list: Vec<Expr> = Vec::new();
            list.push(other);
            list.push(right);
            assert(matcher::exprs_view(list@) =~= seq![left@, right@]);
            let r = Expr::Or(list);
            assert(r@ == ExprView::Or(matcher::exprs_view(list@)));
            assert(!(left@ is Or));
            r
        },
    }
}

fn join_and(left: Expr, right: Expr) -> (r: Expr)
    ensures
        r@ == and_with(left@, right@),
{
    match left {
        Expr::And(list) => {
            let ghost views = matcher::exprs_view(list@);
            assert(left@ == ExprView::And(views));
            let mut list = list;
            list.push(right);
            assert(matcher::exprs_view(list@) =~= views.push(right@));
            let r = Expr::And(list);
            assert(r@ == ExprView::And(matcher::exprs_view(list@)));
            r
        },
        other => {
            let mut list: Vec<Expr> = Vec::new();
            list.push(other);
            list.push(right);
            assert(matcher::exprs_view(list@) =~= seq![left@, right@]);
            let r = Expr::And(list);
            assert(r@ == ExprView::And(matcher::exprs_view(list@)));
            assert(!(left@ is And));
            r
        },
    }
}

fn parse_or(tokens: &[Token], from: usize) -> (r: Result<(Expr, usize), QueryError>)
    requires
        from <= tokens@.len(),
    ensures
        agrees(r, or_at(lexer::tokens_view(tokens@), from as int)),
        r matches Ok(p) ==> from < p.1 <= tokens@.len(),
    decreases tokens@.len() - from, 3int,
{
    let ghost ts = lexer::tokens_view(tokens@);
    let (first, next) = match parse_and(tokens, from) {
        Ok(p) => p,
        Err(e) => return Err(e),
    };
    let mut left = first;
    let mut i: usize = next;
    while i < tokens.len() && matches!(tokens[i], Token::Or)
        invariant
            from < i <= tokens@.len(),
            ts == lexer::tokens_view(tokens@),
            or_at(ts, from as int) == or_rest(ts, i as int, left@),
        decreases tokens@.len() - i,
    {
        assert(ts[i as int] == tokens@[i as int]@);
        let (right, next) = match parse_and(tokens, i + 1) {
            Ok(p) => p,
            Err(e) => return Err(e),
        };
        left = join_or(left, right);
        i = next;
    }
    if i < tokens.len() {
        assert(ts[i as int] == tokens@[i as int]@);
    }
    Ok((left, i))
}

fn parse_and(tokens: &[Token], from: usize) -> (r: Result<(Expr, usize), QueryError>)
    requires
        from <= tokens@.len(),
    ensures
        agrees(r, and_at(lexer::tokens_view(tokens@), from as int)),
        r matches Ok(p) ==> from < p.1 <= tokens@.len(),
    decreases tokens@.len() - from, 2int,
{
    let ghost ts = lexer::tokens_view(tokens@);
    let (first, next) = match parse_primary(tokens, from) {
        Ok(p) => p,
        Err(e) => return Err(e),
    };
    let mut left = first;
    let mut i: usize = next;
    while i < tokens.len() && matches!(tokens[i], Token::And | Token::Not | Token::LParen | Token::Matcher(_))
        invariant
            from < i <= tokens@.len(),
            ts == lexer::tokens_view(tokens@),
            and_at(ts, from as int) == and_rest(ts, i as int, left@),
        decreases tokens@.len() - i,
    {
        assert(ts[i as int] == tokens@[i as int]@);
        let start: usize = if matches!(tokens[i], Token::And) {
            i + 1
        } else {
            i
        };
        let (right, next) = match parse_primary(tokens, start) {
            Ok(p) => p,
            Err(e) => return Err(e),
        };
        left = join_and(left, right);
        i = next;
    }
    if i < tokens.len() {
        assert(ts[i as int] == tokens@[i as int]@);
    }
    Ok((left, i))
}

fn parse_primary(tokens: &[Token], from: usize) -> (r: Result<(Expr, usize), QueryError>)
    requires
        from <= tokens@.len(),
    ensures
        agrees(r, primary_at(lexer::tokens_view(tokens@), from as int)),
        r matches Ok(p) ==> from < p.1 <= tokens@.len(),
    decreases tokens@.len() - from, 1int,
{
    let ghost ts = lexer::tokens_view(tokens@);
    if from >= tokens.len() {
        return Err(QueryError::End);
    }
    assert(ts[from as int] == tokens@[from as int]@);
    match &tokens[from] {
        Token::Not => match parse_primary(tokens, from + 1) {
            Ok((inner, j)) => {
                let r = Expr::Not(Box::new(inner));
                assert(r@ == ExprView::Not(Box::new(inner@)));
                Ok((r, j))
            },
            Err(e) => Err(e),
        },
        Token::LParen => match parse_or(tokens, from + 1) {
            Ok((expr, j)) => {
                if j < tokens.len() && matches!(tokens[j], Token::RParen) {
                    assert(ts[j as int] == tokens@[j as int]@);
                    Ok((expr, j + 1))
                } else {
                    if j < tokens.len() {
                        assert(ts[j as int] == tokens@[j as int]@);
                    }
                    Err(QueryError::Unclosed)
                }
            },
            Err(e) => Err(e),
        },
        Token::Matcher(m) => {
            let r = Expr::Match(m.clone());
            assert(r@ == ExprView::Match(m@));
            Ok((r, from + 1))
        },
        Token::And => Err(QueryError::UnexpectedAnd),
        Token::Or => Err(QueryError::UnexpectedOr),
        Token::RParen => Err(QueryError::UnexpectedClose),
    }
}

/// Reads a filter.
pub fn parse_stage(input: &[char]) -> (r: Result<Option<Expr>, QueryError>)
    ensures
        r matches Ok(Some(e)) ==> filter_of(input@) == Ok::<Option<ExprView>, Fault>(Some(e@)),
        r matches Ok(None) ==> filter_of(input@) == Ok::<Option<ExprView>, Fault>(None),
        r matches Err(e) ==> filter_of(input@) == Err::<Option<ExprView>, Fault>(e@),
{
    match tokenize_stage(input) {
        Err(e) => Err(e),
        Ok(tokens) => {
            if tokens.len() == 0 {
                return Ok(None);
            }
            match parse_or(tokens.as_slice(), 0) {
                Ok((expr, _)) => Ok(Some(expr)),
                Err(e) => Err(e),
            }
        },
    }
}

} // verus!
