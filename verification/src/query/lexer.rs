//! Cutting a filter into its tokens.

use super::fault::{Fault, QueryError};
use super::matcher::{self, build_regex, is_quote_char, Matcher, MatcherView};
use crate::text::{self, equal_ignoring_case, is_whitespace, string_of};
use vstd::prelude::*;
use vstd::slice::slice_subrange;

verus! {

/// A token of a filter.
#[derive(Debug, PartialEq)]
pub enum Token {
    And,
    Or,
    Not,
    LParen,
    RParen,
    Matcher(Matcher),
}

/// What a token holds.
pub enum TokenView {
    And,
    Or,
    Not,
    LParen,
    RParen,
    Matcher(MatcherView),
}

impl View for Token {
    type V = TokenView;

    open spec fn view(&self) -> TokenView {
        match self {
            Token::And => TokenView::And,
            Token::Or => TokenView::Or,
            Token::Not => TokenView::Not,
            Token::LParen => TokenView::LParen,
            Token::RParen => TokenView::RParen,
            Token::Matcher(m) => TokenView::Matcher(m@),
        }
    }
}

/// What each token of a list holds.
pub open spec fn tokens_view(v: Seq<Token>) -> Seq<TokenView> {
    v.map_values(|t: Token| t@)
}

/// The text of a quoted term that goes on at `i` with `acc` already read, and
/// the place behind it. A backslash before the quote or before another backslash
/// stands for that character; before any other character both are kept. A term
/// that is never closed runs to the end.
pub open spec fn quoted(s: Seq<char>, i: int, delimiter: char, acc: Seq<char>) -> (Seq<char>, int)
    decreases s.len() - i,
{
    if !(0 <= i < s.len()) {
        (acc, i)
    } else if s[i] == '\\' && i + 1 < s.len() {
        let next = s[i + 1];
        if next == delimiter || next == '\\' {
            quoted(s, i + 2, delimiter, acc.push(next))
        } else {
            quoted(s, i + 2, delimiter, acc.push('\\').push(next))
        }
    } else if s[i] == delimiter {
        (acc, i + 1)
    } else {
        quoted(s, i + 1, delimiter, acc.push(s[i]))
    }
}

/// A quoted term ends inside the text.
pub proof fn lemma_quoted(s: Seq<char>, i: int, delimiter: char, acc: Seq<char>)
    requires
        0 <= i <= s.len(),
    ensures
        i <= quoted(s, i, delimiter, acc).1 <= s.len(),
    decreases s.len() - i,
{
    if i < s.len() {
        if s[i] == '\\' && i + 1 < s.len() {
            let next = s[i + 1];
            if next == delimiter || next == '\\' {
                lemma_quoted(s, i + 2, delimiter, acc.push(next));
            } else {
                lemma_quoted(s, i + 2, delimiter, acc.push('\\').push(next));
            }
        } else if s[i] != delimiter {
            lemma_quoted(s, i + 1, delimiter, acc.push(s[i]));
        }
    }
}

/// Reads a quoted term that goes on at `from`: its text, and the place behind it.
pub fn read_quoted_string(chars: &[char], from: usize, delimiter: char) -> (r: (String, usize))
    requires
        from <= chars@.len(),
    ensures
        (r.0@, r.1 as int) == quoted(chars@, from as int, delimiter, seq![]),
        from <= r.1 <= chars@.len(),
{
    let mut s: Vec<char> = Vec::new();
    let mut i: usize = from;
    while i < chars.len()
        invariant
            from <= i <= chars@.len(),
            quoted(chars@, from as int, delimiter, seq![]) == quoted(chars@, i as int, delimiter, s@),
        decreases chars@.len() - i,
    {
        if chars[i] == '\\' && i + 1 < chars.len() {
            let next = chars[i + 1];
            if next == delimiter || next == '\\' {
                s.push(next);
            } else {
                s.push('\\');
                s.push(next);
            }
            i += 2;
        } else if chars[i] == delimiter {
            return (string_of(s.as_slice()), i + 1);
        } else {
            s.push(chars[i]);
            i += 1;
        }
    }
    (string_of(s.as_slice()), i)
}

/// What kind of term a quote opens.
#[derive(Clone, Copy)]
pub enum Form {
    Literal,
    Glob,
    Regex,
}

/// Whether a quote opens a term at `i`: its kind, whether letter case matters,
/// and where its text begins.
pub open spec fn opening(s: Seq<char>, i: int) -> Option<(Form, bool, int)> {
    if i + 2 < s.len() && s[i] == 's' && s[i + 1] == 'r' && matcher::quote(s[i + 2]) {
        Some((Form::Regex, true, i + 3))
    } else if i + 1 < s.len() && s[i] == 'r' && matcher::quote(s[i + 1]) {
        Some((Form::Regex, false, i + 2))
    } else if i + 2 < s.len() && s[i] == 's' && s[i + 1] == '~' && matcher::quote(s[i + 2]) {
        Some((Form::Glob, true, i + 3))
    } else if i + 1 < s.len() && s[i] == '~' && matcher::quote(s[i + 1]) {
        Some((Form::Glob, false, i + 2))
    } else if i + 1 < s.len() && s[i] == 's' && matcher::quote(s[i + 1]) {
        Some((Form::Literal, true, i + 2))
    } else if matcher::quote(s[i]) {
        Some((Form::Literal, false, i + 1))
    } else {
        None
    }
}

pub(crate) fn find_opening(s: &[char], i: usize) -> (r: Option<(Form, bool, usize)>)
    requires
        i < s@.len(),
    ensures
        r matches Some(o) ==> opening(s@, i as int) == Some((o.0, o.1, o.2 as int)) && i < o.2 <= s@.len(),
        r is None ==> opening(s@, i as int) is None,
{
    let rem = s.len() - i;
    if rem >= 3 && s[i] == 's' && s[i + 1] == 'r' && is_quote_char(s[i + 2]) {
        Some((Form::Regex, true, i + 3))
    } else if rem >= 2 && s[i] == 'r' && is_quote_char(s[i + 1]) {
        Some((Form::Regex, false, i + 2))
    } else if rem >= 3 && s[i] == 's' && s[i + 1] == '~' && is_quote_char(s[i + 2]) {
        Some((Form::Glob, true, i + 3))
    } else if rem >= 2 && s[i] == '~' && is_quote_char(s[i + 1]) {
        Some((Form::Glob, false, i + 2))
    } else if rem >= 2 && s[i] == 's' && is_quote_char(s[i + 1]) {
        Some((Form::Literal, true, i + 2))
    } else if is_quote_char(s[i]) {
        Some((Form::Literal, false, i + 1))
    } else {
        None
    }
}

/// The term of the given kind with the given text; a regular expression must compile.
pub open spec fn term(form: Form, case_sensitive: bool, val: Seq<char>) -> Result<MatcherView, Fault> {
    match form {
        Form::Literal => Ok(MatcherView::Literal { text: val, case_sensitive }),
        Form::Glob => Ok(MatcherView::Glob { pattern: val, case_sensitive }),
        Form::Regex => match matcher::regex_result(val, !case_sensitive) {
            Ok(finds) => Ok(MatcherView::Regex { pattern: val, case_sensitive, finds }),
            Err(m) => Err(Fault::Regex(val, m)),
        },
    }
}

fn build_term(form: Form, case_sensitive: bool, val: String) -> (r: Result<Matcher, QueryError>)
    ensures
        r matches Ok(m) ==> term(form, case_sensitive, val@) == Ok::<MatcherView, Fault>(m@),
        r matches Err(e) ==> term(form, case_sensitive, val@) == Err::<MatcherView, Fault>(e@),
{
    match form {
        Form::Literal => Ok(Matcher::Literal { text: val, case_sensitive }),
        Form::Glob => Ok(Matcher::Glob { pattern: val, case_sensitive }),
        Form::Regex => match build_regex(val.as_str(), !case_sensitive) {
            Ok(compiled) => Ok(Matcher::Regex { pattern: val, case_sensitive, compiled }),
            Err(m) => Err(QueryError::Regex(val, m)),
        },
    }
}

/// A character that can stand in an unquoted word.
pub open spec fn in_word(c: char) -> bool {
    !text::whitespace(c) && c != '(' && c != ')' && c != '|'
}

/// The end of the unquoted word that begins at `i`.
pub open spec fn bare_end(s: Seq<char>, i: int) -> int
    decreases s.len() - i,
{
    if 0 <= i < s.len() && in_word(s[i]) {
        bare_end(s, i + 1)
    } else {
        i
    }
}

/// An unquoted word ends inside the text.
pub proof fn lemma_bare_end(s: Seq<char>, i: int)
    requires
        0 <= i <= s.len(),
    ensures
        i <= bare_end(s, i) <= s.len(),
        i < s.len() && in_word(s[i]) ==> i < bare_end(s, i),
    decreases s.len() - i,
{
    if i < s.len() && in_word(s[i]) {
        lemma_bare_end(s, i + 1);
    }
}

pub(crate) fn find_bare_end(s: &[char], from: usize) -> (r: usize)
    requires
        from <= s@.len(),
    ensures
        r == bare_end(s@, from as int),
        from <= r <= s@.len(),
{
    let mut i: usize = from;
    while i < s.len() && !is_whitespace(s[i]) && s[i] != '(' && s[i] != ')' && s[i] != '|'
        invariant
            from <= i <= s@.len(),
            bare_end(s@, from as int) == bare_end(s@, i as int),
        decreases s@.len() - i,
    {
        i += 1;
    }
    i
}

/// The operator that an unquoted word is, in any letter case.
pub open spec fn operator(w: Seq<char>) -> Option<TokenView> {
    if text::same_ignoring_case(w, "and"@) {
        Some(TokenView::And)
    } else if text::same_ignoring_case(w, "or"@) {
        Some(TokenView::Or)
    } else if text::same_ignoring_case(w, "not"@) {
        Some(TokenView::Not)
    } else {
        None
    }
}

/// The tokens of a filter from `i` on, behind those already read.
pub open spec fn lexed(s: Seq<char>, i: int, acc: Seq<TokenView>) -> Result<Seq<TokenView>, Fault>
    decreases s.len() - i,
{
    if !(0 <= i < s.len()) {
        Ok(acc)
    } else if text::whitespace(s[i]) {
        lexed(s, i + 1, acc)
    } else if s[i] == '(' {
        lexed(s, i + 1, acc.push(TokenView::LParen))
    } else if s[i] == ')' {
        lexed(s, i + 1, acc.push(TokenView::RParen))
    } else {
        match opening(s, i) {
            Some((form, case_sensitive, start)) => {
                let (val, end) = quoted(s, start, s[start - 1], seq![]);
                proof {
                    lemma_quoted(s, start, s[start - 1], seq![]);
                }
                match term(form, case_sensitive, val) {
                    Ok(m) => lexed(s, end, acc.push(TokenView::Matcher(m))),
                    Err(e) => Err(e),
                }
            },
            None => {
                let end = bare_end(s, i);
                let word = s.subrange(i, end);
                proof {
                    lemma_bare_end(s, i);
                }
                if end == i {
                    Err(Fault::Bar)
                } else {
                    match operator(word) {
                        Some(t) => lexed(s, end, acc.push(t)),
                        None => Err(Fault::Unquoted(word)),
                    }
                }
            },
        }
    }
}

/// The tokens of a filter.
pub open spec fn tokens_of(s: Seq<char>) -> Result<Seq<TokenView>, Fault> {
    lexed(s, 0, seq![])
}

/// Cuts a filter into its tokens.
pub fn tokenize_stage(chars: &[char]) -> (r: Result<Vec<Token>, QueryError>)
    ensures
        r matches Ok(v) ==> tokens_of(chars@) == Ok::<Seq<TokenView>, Fault>(tokens_view(v@)),
        r matches Err(e) ==> tokens_of(chars@) == Err::<Seq<TokenView>, Fault>(e@),
{
    let mut tokens: Vec<Token> = Vec::new();
    let mut i: usize = 0;
    assert(tokens_view(tokens@) =~= seq![]);
    while i < chars.len()
        invariant
            i <= chars@.len(),
            tokens_of(chars@) == lexed(chars@, i as int, tokens_view(tokens@)),
        decreases chars@.len() - i,
    {
        let ghost before = tokens@;
        if is_whitespace(chars[i]) {
            i += 1;
        } else if chars[i] == '(' {
            tokens.push(Token::LParen);
            assert(tokens_view(tokens@) =~= tokens_view(before).push(TokenView::LParen));
            i += 1;
        } else if chars[i] == ')' {
            tokens.push(Token::RParen);
            assert(tokens_view(tokens@) =~= tokens_view(before).push(TokenView::RParen));
            i += 1;
        } else {
            match find_opening(chars, i) {
                Some((form, case_sensitive, start)) => {
                    let (val, end) = read_quoted_string(chars, start, chars[start - 1]);
                    match build_term(form, case_sensitive, val) {
                        Ok(m) => {
                            let ghost mv = m@;
                            tokens.push(Token::Matcher(m));
                            assert(tokens_view(tokens@) =~= tokens_view(before).push(TokenView::Matcher(mv)));
                            i = end;
                        },
                        Err(e) => return Err(e),
                    }
                },
                None => {
                    let end: usize = find_bare_end(chars, i);
                    proof {
                        lemma_bare_end(chars@, i as int);
                    }
                    if end == i {
                        return Err(QueryError::Bar);
                    }
                    let word = slice_subrange(chars, i, end);
                    if equal_ignoring_case(word, "and") {
                        tokens.push(Token::And);
                        assert(tokens_view(tokens@) =~= tokens_view(before).push(TokenView::And));
                    } else if equal_ignoring_case(word, "or") {
                        tokens.push(Token::Or);
                        assert(tokens_view(tokens@) =~= tokens_view(before).push(TokenView::Or));
                    } else if equal_ignoring_case(word, "not") {
                        tokens.push(Token::Not);
                        assert(tokens_view(tokens@) =~= tokens_view(before).push(TokenView::Not));
                    } else {
                        return Err(QueryError::Unquoted(string_of(word)));
                    }
                    i = end;
                },
            }
        }
    }
    Ok(tokens)
}

} // verus!
