//! Reading the stages of a query.

use super::dedup::DedupMode;
use super::fault::{Fault, QueryError};
use super::matcher::{self, is_quote_char};
use super::parser::{self, parse_stage};
use super::pipeline::{Modifier, ModifierView};
use super::time::{self, duration_in_range, parse_duration};
use crate::numbers::{self, parse_usize};
use crate::text::{self, cut_at, equal_ignoring_case, same_str, split_words, string_of, strip, to_lower, Class};
use vstd::prelude::*;

verus! {

/// The stages of a query from `i` on: the texts between the bars that stand
/// outside quotes and behind no backslash. `cur` is the part of the current stage
/// already read, `quote` the quote that is open, `escaped` whether a backslash
/// came just before.
pub open spec fn stages_from(s: Seq<char>, i: int, cur: Seq<char>, quote: Option<char>, escaped: bool) -> Seq<Seq<char>>
    decreases s.len() - i,
{
    if !(0 <= i < s.len()) {
        if cur.len() == 0 {
            seq![]
        } else {
            seq![cur]
        }
    } else {
        let c = s[i];
        if escaped {
            stages_from(s, i + 1, cur.push(c), quote, false)
        } else if c == '\\' {
            stages_from(s, i + 1, cur.push(c), quote, true)
        } else if quote is Some {
            stages_from(
                s,
                i + 1,
                cur.push(c),
                if c == quote->0 {
                    None
                } else {
                    quote
                },
                false,
            )
        } else if matcher::quote(c) {
            stages_from(s, i + 1, cur.push(c), Some(c), false)
        } else if c == '|' {
            seq![cur] + stages_from(s, i + 1, seq![], quote, false)
        } else {
            stages_from(s, i + 1, cur.push(c), quote, false)
        }
    }
}

pub open spec fn stages_of(s: Seq<char>) -> Seq<Seq<char>> {
    stages_from(s, 0, seq![], None, false)
}

/// What each text of a list holds.
pub open spec fn texts_view(v: Seq<Vec<char>>) -> Seq<Seq<char>> {
    v.map_values(|t: Vec<char>| t@)
}

pub fn split_pipeline_stages(s: &[char]) -> (r: Vec<Vec<char>>)
    ensures
        texts_view(r@) == stages_of(s@),
{
    let mut stages: Vec<Vec<char>> = Vec::new();
    let mut cur: Vec<char> = Vec::new();
    let mut quote: Option<char> = None;
    let mut escaped: bool = false;
    let mut i: usize = 0;
    assert(texts_view(stages@) + stages_of(s@) =~= stages_of(s@));
    while i < s.len()
        invariant
            i <= s@.len(),
            texts_view(stages@) + stages_from(s@, i as int, cur@, quote, escaped) == stages_of(s@),
        decreases s@.len() - i,
    {
        let c: char = s[i];
        let ghost done = stages@;
        let ghost held = cur@;
        if escaped {
            cur.push(c);
            escaped = false;
        } else if c == '\\' {
            escaped = true;
            cur.push(c);
        } else if let Some(q) = quote {
            if c == q {
                quote = None;
            }
            cur.push(c);
        } else if is_quote_char(c) {
            quote = Some(c);
            cur.push(c);
        } else if c == '|' {
            stages.push(cur);
            cur = Vec::new();
            assert(texts_view(stages@) =~= texts_view(done).push(held));
            assert(texts_view(stages@) + stages_from(s@, i + 1, cur@, quote, escaped) =~= texts_view(done) + (seq![
                held,
            ] + stages_from(s@, i + 1, cur@, quote, escaped)));
        } else {
            cur.push(c);
        }
        i += 1;
    }
    let ghost done = stages@;
    let ghost held = cur@;
    if cur.len() > 0 {
        stages.push(cur);
        assert(texts_view(stages@) =~= texts_view(done).push(held));
    }
    assert(texts_view(stages@) =~= stages_of(s@));
    stages
}

/// The first word of a stage, in small letters, and its arguments. A stage that
/// begins with a quote is one text: no word is read off it.
pub open spec fn stage_parts(s: Seq<char>) -> (Seq<char>, Seq<char>) {
    if s.len() > 0 && matcher::quote(s[0]) {
        (seq![], seq![])
    } else {
        match text::cut(s, Class::NotSpace) {
            Some((k, r)) => (text::lowercase(k), text::trimmed(r)),
            None => (text::lowercase(s), seq![]),
        }
    }
}

pub open spec fn is_dedup(kw: Seq<char>) -> bool {
    kw == "dedup"@ || kw == "deduplicate"@
}

/// Whether a stage that begins with this word is a step and no filter.
pub open spec fn is_keyword(kw: Seq<char>) -> bool {
    kw == "since"@ || kw == "before"@ || kw == "after"@ || kw == "context"@ || kw == "first"@ || kw == "last"@
        || is_dedup(kw)
}

/// Whether the arguments of `dedup` are read as a duration.
pub open spec fn dedup_by_time(rest: Seq<char>) -> bool {
    rest.len() > 0 && !text::same_ignoring_case(rest, "all"@)
}

/// Whether the durations of a stage are in range.
pub open spec fn stage_fits(s: Seq<char>) -> bool {
    let (kw, rest) = stage_parts(s);
    kw == "since"@ || kw == "before"@ || (is_dedup(kw) && dedup_by_time(rest)) ==> time::duration_fits(rest)
}

pub open spec fn count_of(s: Seq<char>) -> Result<usize, Fault> {
    match numbers::read_usize(s) {
        Some(n) => Ok(n as usize),
        None => Err(Fault::Number(s)),
    }
}

/// The step that a stage stands for. A stage that begins with no keyword is a filter.
pub open spec fn modifier_of(s: Seq<char>) -> Result<Option<ModifierView>, Fault> {
    let (kw, rest) = stage_parts(s);
    if kw == "since"@ {
        match time::duration_of(rest) {
            Some(d) => Ok(Some(ModifierView::Since(d))),
            None => Err(Fault::Since(rest)),
        }
    } else if kw == "before"@ {
        match time::duration_of(rest) {
            Some(d) => Ok(Some(ModifierView::BeforeTime(d))),
            None => match count_of(rest) {
                Ok(n) => Ok(Some(ModifierView::BeforeContext(n))),
                Err(_) => Err(Fault::Before(rest)),
            },
        }
    } else if kw == "after"@ {
        match count_of(rest) {
            Ok(n) => Ok(Some(ModifierView::AfterContext(n))),
            Err(_) => Err(Fault::After(rest)),
        }
    } else if kw == "context"@ {
        let parts = text::words(rest);
        if parts.len() == 1 {
            match count_of(parts[0]) {
                Ok(n) => Ok(Some(ModifierView::Context { before: n, after: n })),
                Err(e) => Err(e),
            }
        } else if parts.len() == 2 {
            match count_of(parts[0]) {
                Ok(b) => match count_of(parts[1]) {
                    Ok(a) => Ok(Some(ModifierView::Context { before: b, after: a })),
                    Err(e) => Err(e),
                },
                Err(e) => Err(e),
            }
        } else {
            Err(Fault::Context(rest))
        }
    } else if kw == "first"@ {
        match count_of(rest) {
            Ok(n) => Ok(Some(ModifierView::First(n))),
            Err(e) => Err(e),
        }
    } else if kw == "last"@ {
        match count_of(rest) {
            Ok(n) => Ok(Some(ModifierView::Last(n))),
            Err(e) => Err(e),
        }
    } else if is_dedup(kw) {
        if rest.len() == 0 {
            Ok(Some(ModifierView::Deduplicate(DedupMode::Consecutive)))
        } else if text::same_ignoring_case(rest, "all"@) {
            Ok(Some(ModifierView::Deduplicate(DedupMode::All)))
        } else {
            match time::duration_of(rest) {
                Some(d) => Ok(Some(ModifierView::Deduplicate(DedupMode::Window(d)))),
                None => Err(Fault::Dedup(rest)),
            }
        }
    } else {
        match parser::filter_of(s) {
            Ok(Some(e)) => Ok(Some(ModifierView::Filter(e))),
            Ok(None) => Ok(None),
            Err(e) => Err(e),
        }
    }
}

/// What was read of a stage agrees with what stands there.
pub open spec fn stage_agrees(
    r: Result<Option<Modifier>, QueryError>,
    p: Result<Option<ModifierView>, Fault>,
) -> bool {
    match r {
        Ok(Some(m)) => p == Ok::<Option<ModifierView>, Fault>(Some(m@)),
        Ok(None) => p == Ok::<Option<ModifierView>, Fault>(None),
        Err(e) => p == Err::<Option<ModifierView>, Fault>(e@),
    }
}

fn split_stage(s: &[char]) -> (r: (String, Vec<char>))
    ensures
        (r.0@, r.1@) == stage_parts(s@),
{
    if s.len() > 0 && is_quote_char(s[0]) {
        return (String::new(), Vec::new());
    }
    match cut_at(s, Class::NotSpace) {
        Some((k, rest)) => {
            let trimmed = strip(rest, Class::Space);
            let mut v: Vec<char> = Vec::new();
            v.extend_from_slice(trimmed);
            assert(v@ =~= trimmed@);
            (to_lower(string_of(k).as_str()), v)
        },
        None => (to_lower(string_of(s).as_str()), Vec::new()),
    }
}

/// Whether `parse_modifier_stage` takes this stage.
pub fn stage_in_range(s: &[char]) -> (r: bool)
    ensures
        r == stage_fits(s@),
{
    let (kw, rest) = split_stage(s);
    let k = kw.as_str();
    let timed = same_str(k, "since") || same_str(k, "before") || ((same_str(k, "dedup") || same_str(
        k,
        "deduplicate",
    )) && rest.len() > 0 && !equal_ignoring_case(rest.as_slice(), "all"));
    if timed {
        duration_in_range(string_of(rest.as_slice()).as_str())
    } else {
        true
    }
}

fn read_count(s: &[char]) -> (r: Result<usize, QueryError>)
    ensures
        r matches Ok(n) ==> count_of(s@) == Ok::<usize, Fault>(n),
        r matches Err(e) ==> count_of(s@) == Err::<usize, Fault>(e@),
{
    match parse_usize(s) {
        Some(n) => Ok(n),
        None => Err(QueryError::Number(string_of(s))),
    }
}

fn read_context(rest: &[char]) -> (r: Result<Option<Modifier>, QueryError>)
    ensures
        ({
            let parts = text::words(rest@);
            stage_agrees(
                r,
                if parts.len() == 1 {
                    match count_of(parts[0]) {
                        Ok(n) => Ok(Some(ModifierView::Context { before: n, after: n })),
                        Err(e) => Err(e),
                    }
                } else if parts.len() == 2 {
                    match count_of(parts[0]) {
                        Ok(b) => match count_of(parts[1]) {
                            Ok(a) => Ok(Some(ModifierView::Context { before: b, after: a })),
                            Err(e) => Err(e),
                        },
                        Err(e) => Err(e),
                    }
                } else {
                    Err(Fault::Context(rest@))
                },
            )
        }),
{
    let parts = split_words(rest);
    assert(text::views(parts@).len() == parts@.len());
    if parts.len() == 1 {
        assert(text::views(parts@)[0] == parts@[0]@);
        match read_count(parts[0]) {
            Ok(n) => Ok(Some(Modifier::Context { before: n, after: n })),
            Err(e) => Err(e),
        }
    } else if parts.len() == 2 {
        assert(text::views(parts@)[0] == parts@[0]@);
        assert(text::views(parts@)[1] == parts@[1]@);
        match read_count(parts[0]) {
            Ok(b) => match read_count(parts[1]) {
                Ok(a) => Ok(Some(Modifier::Context { before: b, after: a })),
                Err(e) => Err(e),
            },
            Err(e) => Err(e),
        }
    } else {
        Err(QueryError::Context(string_of(rest)))
    }
}

/// Reads a stage.
pub fn parse_modifier_stage(s: &[char]) -> (r: Result<Option<Modifier>, QueryError>)
    requires
        stage_fits(s@),
    ensures
        stage_agrees(r, modifier_of(s@)),
{
    let (kw, rest) = split_stage(s);
    let k = kw.as_str();
    let text = string_of(rest.as_slice());
    if same_str(k, "since") {
        match parse_duration(text.as_str()) {
            Some(d) => Ok(Some(Modifier::Since(d))),
            None => Err(QueryError::Since(text)),
        }
    } else if same_str(k, "before") {
        match parse_duration(text.as_str()) {
            Some(d) => Ok(Some(Modifier::BeforeTime(d))),
            None => match read_count(rest.as_slice()) {
                Ok(n) => Ok(Some(Modifier::BeforeContext(n))),
                Err(_) => Err(QueryError::Before(text)),
            },
        }
    } else if same_str(k, "after") {
        match read_count(rest.as_slice()) {
            Ok(n) => Ok(Some(Modifier::AfterContext(n))),
            Err(_) => Err(QueryError::After(text)),
        }
    } else if same_str(k, "context") {
        read_context(rest.as_slice())
    } else if same_str(k, "first") {
        match read_count(rest.as_slice()) {
            Ok(n) => Ok(Some(Modifier::First(n))),
            Err(e) => Err(e),
        }
    } else if same_str(k, "last") {
        match read_count(rest.as_slice()) {
            Ok(n) => Ok(Some(Modifier::Last(n))),
            Err(e) => Err(e),
        }
    } else if same_str(k, "dedup") || same_str(k, "deduplicate") {
        if rest.len() == 0 {
            Ok(Some(Modifier::Deduplicate(DedupMode::Consecutive)))
        } else if equal_ignoring_case(rest.as_slice(), "all") {
            Ok(Some(Modifier::Deduplicate(DedupMode::All)))
        } else {
            match parse_duration(text.as_str()) {
                Some(d) => Ok(Some(Modifier::Deduplicate(DedupMode::Window(d)))),
                None => Err(QueryError::Dedup(text)),
            }
        }
    } else {
        match parse_stage(s) {
            Ok(Some(e)) => Ok(Some(Modifier::Filter(e))),
            Ok(None) => Ok(None),
            Err(e) => Err(e),
        }
    }
}

} // verus!
