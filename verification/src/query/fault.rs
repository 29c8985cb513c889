//! What can be wrong with a query.

use crate::numbers;
use crate::text::{chars_of, string_of};
use vstd::prelude::*;

verus! {

/// Why a query could not be read.
#[derive(Debug)]
pub enum QueryError {
    /// `since` without a duration.
    Since(String),
    /// `before` with neither a duration nor a line count.
    Before(String),
    /// `after` without a line count.
    After(String),
    /// `context` with more or fewer than one or two arguments.
    Context(String),
    /// `dedup` with an argument it does not know.
    Dedup(String),
    /// A text where a count was expected.
    Number(String),
    /// A regular expression that does not compile, and why.
    Regex(String, String),
    /// A term without quotes.
    Unquoted(String),
    /// A bar where a term was expected.
    Bar,
    /// The filter ends where a term was expected.
    End,
    /// An opening parenthesis without its closing one.
    Unclosed,
    /// `and` where a term was expected.
    UnexpectedAnd,
    /// `or` where a term was expected.
    UnexpectedOr,
    /// A closing parenthesis where a term was expected.
    UnexpectedClose,
}

/// What an error holds.
pub enum Fault {
    Since(Seq<char>),
    Before(Seq<char>),
    After(Seq<char>),
    Context(Seq<char>),
    Dedup(Seq<char>),
    Number(Seq<char>),
    Regex(Seq<char>, Seq<char>),
    Unquoted(Seq<char>),
    Bar,
    End,
    Unclosed,
    UnexpectedAnd,
    UnexpectedOr,
    UnexpectedClose,
}

impl View for QueryError {
    type V = Fault;

    open spec fn view(&self) -> Fault {
        match self {
            QueryError::Since(s) => Fault::Since(s@),
            QueryError::Before(s) => Fault::Before(s@),
            QueryError::After(s) => Fault::After(s@),
            QueryError::Context(s) => Fault::Context(s@),
            QueryError::Dedup(s) => Fault::Dedup(s@),
            QueryError::Number(s) => Fault::Number(s@),
            QueryError::Regex(p, m) => Fault::Regex(p@, m@),
            QueryError::Unquoted(s) => Fault::Unquoted(s@),
            QueryError::Bar => Fault::Bar,
            QueryError::End => Fault::End,
            QueryError::Unclosed => Fault::Unclosed,
            QueryError::UnexpectedAnd => Fault::UnexpectedAnd,
            QueryError::UnexpectedOr => Fault::UnexpectedOr,
            QueryError::UnexpectedClose => Fault::UnexpectedClose,
        }
    }
}

/// The words in which std says why a text is no count of at most `max`.
pub uninterp spec fn count_fault(s: Seq<char>, max: int) -> Seq<char>;

/// `str::parse::<usize>` on a text that is no count: the words of its error,
/// which depend on the text and on the largest count there is.
#[verifier::external_body]
fn count_error(s: &str) -> (r: String)
    requires
        numbers::read_usize(s@) is None,
    ensures
        r@ == count_fault(s@, usize::MAX as int),
{
    match s.parse::<usize>() {
        Ok(_) => String::new(),
        Err(e) => e.to_string(),
    }
}

impl Fault {
    /// The error in words.
    pub open spec fn words(self) -> Seq<char> {
        match self {
            Fault::Since(s) => "Invalid duration for 'since': '"@ + s + "'"@,
            Fault::Before(s) => "Invalid argument for 'before': '"@ + s + "' (expected duration or line count)"@,
            Fault::After(s) => "Invalid line count for 'after': '"@ + s + "'"@,
            Fault::Context(s) => "'context' expects 1 or 2 integer arguments, got: '"@ + s + "'"@,
            Fault::Dedup(s) => "Invalid argument for 'dedup': '"@ + s + "' (expected empty, 'all', or duration)"@,
            Fault::Number(s) => if numbers::read_usize(s) is None {
                count_fault(s, usize::MAX as int)
            } else {
                ""@
            },
            Fault::Regex(p, m) => "Invalid regex '"@ + p + "': "@ + m,
            Fault::Unquoted(s) => "Unexpected unquoted term '"@ + s
                + "': search terms must be quoted using \"\", '', or ``"@,
            Fault::Bar => "Unexpected '|'"@,
            Fault::End => "Unexpected end of expression"@,
            Fault::Unclosed => "Unclosed parenthesis"@,
            Fault::UnexpectedAnd => "Unexpected token And"@,
            Fault::UnexpectedOr => "Unexpected token Or"@,
            Fault::UnexpectedClose => "Unexpected token RParen"@,
        }
    }
}

/// Three texts, one after the other.
fn joined3(a: &str, b: &str, c: &str) -> (r: String)
    ensures
        r@ == a@ + b@ + c@,
{
    let mut v = chars_of(a);
    let mut w = chars_of(b);
    let mut x = chars_of(c);
    v.append(&mut w);
    v.append(&mut x);
    string_of(v.as_slice())
}

impl QueryError {
    pub fn message(&self) -> (r: String)
        ensures
            r@ == self@.words(),
    {
        match self {
            QueryError::Since(s) => joined3("Invalid duration for 'since': '", s.as_str(), "'"),
            QueryError::Before(s) => joined3(
                "Invalid argument for 'before': '",
                s.as_str(),
                "' (expected duration or line count)",
            ),
            QueryError::After(s) => joined3("Invalid line count for 'after': '", s.as_str(), "'"),
            QueryError::Context(s) => joined3(
                "'context' expects 1 or 2 integer arguments, got: '",
                s.as_str(),
                "'",
            ),
            QueryError::Dedup(s) => joined3(
                "Invalid argument for 'dedup': '",
                s.as_str(),
                "' (expected empty, 'all', or duration)",
            ),
            QueryError::Number(s) => {
                let v = chars_of(s.as_str());
                match numbers::parse_usize(v.as_slice()) {
                    Some(_) => "".to_owned(),
                    None => count_error(s.as_str()),
                }
            },
            QueryError::Regex(p, m) => {
                let mut words = joined3("Invalid regex '", p.as_str(), "': ");
                words.append(m.as_str());
                words
            },
            QueryError::Unquoted(s) => joined3(
                "Unexpected unquoted term '",
                s.as_str(),
                "': search terms must be quoted using \"\", '', or ``",
            ),
            QueryError::Bar => "Unexpected '|'".to_owned(),
            QueryError::End => "Unexpected end of expression".to_owned(),
            QueryError::Unclosed => "Unclosed parenthesis".to_owned(),
            QueryError::UnexpectedAnd => "Unexpected token And".to_owned(),
            QueryError::UnexpectedOr => "Unexpected token Or".to_owned(),
            QueryError::UnexpectedClose => "Unexpected token RParen".to_owned(),
        }
    }
}

} // verus!
