//! The line that a filter is typed on, and the colours of a filter.

use super::area::Area;
use super::pane;
use super::span::{self, put, put_str, Span};
use crate::ansi::Piece;
use crate::query::lexer::{self, find_bare_end, find_opening, Form};
use crate::query::time::{self, duration_in_range, parse_duration};
use crate::query::{self, Query};
use crate::state::view::{PromptMode, StateView};
use crate::state::AppState;
use crate::style::{Emphasis, RatColor, Style};
use crate::text::{self, chars_of, is_whitespace, same_str, scan_forward, string_of, to_lower, Class};
use crate::wrap::{self, str_display_width_up_to};
use vstd::prelude::*;
use vstd::slice::slice_subrange;

verus! {

// ---------------------------------------------------------------------------
// Colours
// ---------------------------------------------------------------------------

/// The colour of a quoted term, by its kind; it is bold where letter case matters.
pub open spec fn term_style(form: Form, case_sensitive: bool) -> Style {
    match (form, case_sensitive) {
        (Form::Regex, true) => Style::plain().fg(RatColor::Cyan).with(Emphasis::bold()),
        (Form::Regex, false) => Style::plain().fg(RatColor::LightCyan),
        (Form::Glob, true) => Style::plain().fg(RatColor::Magenta).with(Emphasis::bold()),
        (Form::Glob, false) => Style::plain().fg(RatColor::LightMagenta),
        (Form::Literal, true) => Style::plain().fg(RatColor::Green).with(Emphasis::bold()),
        (Form::Literal, false) => Style::plain().fg(RatColor::LightGreen),
    }
}

fn style_of_term(form: Form, case_sensitive: bool) -> (r: Style)
    ensures
        r == term_style(form, case_sensitive),
{
    match form {
        Form::Regex => if case_sensitive {
            Style::plain().fg(RatColor::Cyan).with(Emphasis::bold())
        } else {
            Style::plain().fg(RatColor::LightCyan)
        },
        Form::Glob => if case_sensitive {
            Style::plain().fg(RatColor::Magenta).with(Emphasis::bold())
        } else {
            Style::plain().fg(RatColor::LightMagenta)
        },
        Form::Literal => if case_sensitive {
            Style::plain().fg(RatColor::Green).with(Emphasis::bold())
        } else {
            Style::plain().fg(RatColor::LightGreen)
        },
    }
}

/// The colour of a word that means something in a filter, by its lower-case form.
pub open spec fn keyword_color(lower: Seq<char>) -> Option<RatColor> {
    if lower == "and"@ || lower == "or"@ {
        Some(RatColor::LightRed)
    } else if lower == "not"@ {
        Some(RatColor::Red)
    } else if lower == "since"@ || lower == "before"@ {
        Some(RatColor::LightCyan)
    } else if lower == "context"@ || lower == "after"@ {
        Some(RatColor::LightYellow)
    } else if lower == "first"@ || lower == "last"@ {
        Some(RatColor::LightBlue)
    } else if lower == "dedup"@ || lower == "deduplicate"@ {
        Some(RatColor::Magenta)
    } else {
        None
    }
}

fn color_of_keyword(lower: &str) -> (r: Option<RatColor>)
    ensures
        r == keyword_color(lower@),
{
    if same_str(lower, "and") || same_str(lower, "or") {
        Some(RatColor::LightRed)
    } else if same_str(lower, "not") {
        Some(RatColor::Red)
    } else if same_str(lower, "since") || same_str(lower, "before") {
        Some(RatColor::LightCyan)
    } else if same_str(lower, "context") || same_str(lower, "after") {
        Some(RatColor::LightYellow)
    } else if same_str(lower, "first") || same_str(lower, "last") {
        Some(RatColor::LightBlue)
    } else if same_str(lower, "dedup") || same_str(lower, "deduplicate") {
        Some(RatColor::Magenta)
    } else {
        None
    }
}

/// Whether a word is `all` or a number.
pub open spec fn is_count(word: Seq<char>) -> bool {
    text::lowercase(word) == "all"@ || text::run_end(word, 0, Class::Digit) == word.len()
}

/// Whether it can be told if a word is a duration, where that is asked.
pub open spec fn word_fits(word: Seq<char>) -> bool {
    keyword_color(text::lowercase(word)) is Some || is_count(word) || time::duration_fits(word)
}

/// The style of a word without quotes: a keyword, an argument, or an error.
pub open spec fn word_style(word: Seq<char>) -> Style {
    match keyword_color(text::lowercase(word)) {
        Some(c) => Style::plain().fg(c).with(Emphasis::bold()),
        None => if is_count(word) || time::duration_of(word) is Some {
            Style::plain().fg(RatColor::White)
        } else {
            Style::plain().fg(RatColor::Red).with(Emphasis::underlined().union(Emphasis::bold()))
        },
    }
}

/// The colour of a keyword, and whether a word is `all` or a number.
fn sort_word(word: &str) -> (r: (Option<RatColor>, bool))
    ensures
        r.0 == keyword_color(text::lowercase(word@)),
        r.1 == is_count(word@),
{
    let lower = to_lower(word);
    let v = chars_of(word);
    let digits: usize = scan_forward(v.as_slice(), 0, Class::Digit);
    (color_of_keyword(lower.as_str()), same_str(lower.as_str(), "all") || digits == v.len())
}

fn style_of_word(word: &str) -> (r: Style)
    requires
        word_fits(word@),
    ensures
        r == word_style(word@),
{
    let (keyword, count) = sort_word(word);
    match keyword {
        Some(c) => Style::plain().fg(c).with(Emphasis::bold()),
        None => {
            if count || parse_duration(word).is_some() {
                Style::plain().fg(RatColor::White)
            } else {
                Style::plain().fg(RatColor::Red).with(Emphasis::underlined().union(Emphasis::bold()))
            }
        },
    }
}

fn can_style_word(word: &str) -> (r: bool)
    ensures
        r == word_fits(word@),
{
    let (keyword, count) = sort_word(word);
    keyword.is_some() || count || duration_in_range(word)
}

/// What stands at `i` in a filter: its text, its style, and the place behind it.
pub open spec fn token_at(s: Seq<char>, i: int) -> (Piece, int) {
    if text::whitespace(s[i]) {
        (span::styled(" "@, Style::plain()), i + 1)
    } else if s[i] == '|' {
        (span::styled("|"@, Style::plain().fg(RatColor::White).with(Emphasis::bold())), i + 1)
    } else if s[i] == '(' || s[i] == ')' {
        (span::styled(seq![s[i]], Style::plain().fg(RatColor::Yellow)), i + 1)
    } else {
        match lexer::opening(s, i) {
            Some((form, case_sensitive, start)) => {
                let end = lexer::quoted(s, start, s[start - 1], seq![]).1;
                (span::styled(s.subrange(i, end), term_style(form, case_sensitive)), end)
            },
            None => {
                let end = lexer::bare_end(s, i);
                (span::styled(s.subrange(i, end), word_style(s.subrange(i, end))), end)
            },
        }
    }
}

/// Whether a word without quotes stands at `i`.
pub open spec fn word_at(s: Seq<char>, i: int) -> bool {
    lexer::in_word(s[i]) && lexer::opening(s, i) is None
}

/// What stands at a place ends behind it.
pub proof fn lemma_token_at(s: Seq<char>, i: int)
    requires
        0 <= i < s.len(),
    ensures
        i < token_at(s, i).1 <= s.len(),
{
    match lexer::opening(s, i) {
        Some((form, case_sensitive, start)) => {
            lexer::lemma_quoted(s, start, s[start - 1], seq![]);
        },
        None => {
            lexer::lemma_bare_end(s, i);
        },
    }
}

/// A filter from `i` on in its colours.
pub open spec fn colored(s: Seq<char>, i: int) -> Seq<Piece>
    decreases s.len() - i,
{
    if !(0 <= i < s.len()) {
        seq![]
    } else {
        proof {
            lemma_token_at(s, i);
        }
        seq![token_at(s, i).0] + colored(s, token_at(s, i).1)
    }
}

/// Whether every word of a filter from `i` on can be told from a duration.
pub open spec fn colors_fit(s: Seq<char>, i: int) -> bool
    decreases s.len() - i,
{
    if !(0 <= i < s.len()) {
        true
    } else {
        proof {
            lemma_token_at(s, i);
        }
        (word_at(s, i) ==> word_fits(s.subrange(i, lexer::bare_end(s, i)))) && colors_fit(s, token_at(s, i).1)
    }
}

/// The end of a quoted term that goes on at `from`.
pub fn consume_quoted_span(chars: &[char], from: usize, delimiter: char) -> (r: usize)
    requires
        from <= chars@.len(),
    ensures
        r == lexer::quoted(chars@, from as int, delimiter, seq![]).1,
        from <= r <= chars@.len(),
{
    let mut i: usize = from;
    let ghost mut read: Seq<char> = seq![];
    while i < chars.len()
        invariant
            from <= i <= chars@.len(),
            lexer::quoted(chars@, from as int, delimiter, seq![]) == lexer::quoted(
                chars@,
                i as int,
                delimiter,
                read,
            ),
        decreases chars@.len() - i,
    {
        if chars[i] == '\\' && i + 1 < chars.len() {
            proof {
                let next = chars@[i + 1];
                read = if next == delimiter || next == '\\' {
                    read.push(next)
                } else {
                    read.push('\\').push(next)
                };
            }
            i += 2;
        } else if chars[i] == delimiter {
            return i + 1;
        } else {
            proof {
                read = read.push(chars@[i as int]);
            }
            i += 1;
        }
    }
    i
}

/// Adds what stands at `i` in a filter; the place behind it.
fn put_token(line: &mut Vec<Span>, chars: &[char], i: usize) -> (r: usize)
    requires
        i < chars@.len(),
        word_at(chars@, i as int) ==> word_fits(chars@.subrange(i as int, lexer::bare_end(chars@, i as int))),
    ensures
        r == token_at(chars@, i as int).1,
        i < r <= chars@.len(),
        span::spans_view(final(line)@) == span::spans_view(old(line)@).push(token_at(chars@, i as int).0),
{
    proof {
        lemma_token_at(chars@, i as int);
    }
    let c: char = chars[i];
    if is_whitespace(c) {
        put_str(line, " ", Style::plain());
        i + 1
    } else if c == '|' {
        put_str(line, "|", Style::plain().fg(RatColor::White).with(Emphasis::bold()));
        i + 1
    } else if c == '(' || c == ')' {
        let one = slice_subrange(chars, i, i + 1);
        assert(one@ =~= seq![c]);
        put(line, string_of(one), Style::plain().fg(RatColor::Yellow));
        i + 1
    } else {
        match find_opening(chars, i) {
            Some((form, case_sensitive, start)) => {
                let end: usize = consume_quoted_span(chars, start, chars[start - 1]);
                put(line, string_of(slice_subrange(chars, i, end)), style_of_term(form, case_sensitive));
                end
            },
            None => {
                let end: usize = find_bare_end(chars, i);
                let word = string_of(slice_subrange(chars, i, end));
                let style = style_of_word(word.as_str());
                put(line, word, style);
                end
            },
        }
    }
}

/// The place behind what stands at `i`, if every word there can be told from a duration.
fn skip_token(chars: &[char], i: usize) -> (r: Option<usize>)
    requires
        i < chars@.len(),
    ensures
        r is Some == (word_at(chars@, i as int) ==> word_fits(
            chars@.subrange(i as int, lexer::bare_end(chars@, i as int)),
        )),
        r matches Some(e) ==> e == token_at(chars@, i as int).1 && i < e <= chars@.len(),
{
    proof {
        lemma_token_at(chars@, i as int);
    }
    let c: char = chars[i];
    if is_whitespace(c) || c == '|' || c == '(' || c == ')' {
        Some(i + 1)
    } else {
        match find_opening(chars, i) {
            Some((_form, _case_sensitive, start)) => Some(consume_quoted_span(chars, start, chars[start - 1])),
            None => {
                let end: usize = find_bare_end(chars, i);
                if can_style_word(string_of(slice_subrange(chars, i, end)).as_str()) {
                    Some(end)
                } else {
                    None
                }
            },
        }
    }
}

/// A filter in its colours.
pub fn colorize_filter_query(query: &str) -> (r: Vec<Span>)
    requires
        colors_fit(query@, 0),
    ensures
        span::spans_view(r@) == colored(query@, 0),
{
    let v = chars_of(query);
    let chars = v.as_slice();
    let mut line: Vec<Span> = Vec::new();
    let mut i: usize = 0;
    assert(span::spans_view(line@) + colored(query@, 0) =~= colored(query@, 0));
    while i < chars.len()
        invariant
            i <= chars@.len(),
            chars@ == query@,
            colors_fit(query@, i as int),
            span::spans_view(line@) + colored(query@, i as int) == colored(query@, 0),
        decreases chars@.len() - i,
    {
        let ghost was = span::spans_view(line@);
        let end: usize = put_token(&mut line, chars, i);
        assert(was + (seq![token_at(query@, i as int).0] + colored(query@, end as int)) =~= was.push(
            token_at(query@, i as int).0,
        ) + colored(query@, end as int));
        i = end;
    }
    assert(span::spans_view(line@) + Seq::<Piece>::empty() =~= span::spans_view(line@));
    line
}

/// A filter in its colours, where each of its words can be told from a duration.
pub fn try_colorize(query: &str) -> (r: Option<Vec<Span>>)
    ensures
        r is Some == colors_fit(query@, 0),
        r matches Some(l) ==> span::spans_view(l@) == colored(query@, 0),
{
    let v = chars_of(query);
    let chars = v.as_slice();
    let mut i: usize = 0;
    while i < chars.len()
        invariant
            i <= chars@.len(),
            chars@ == query@,
            colors_fit(query@, i as int) == colors_fit(query@, 0),
        decreases chars@.len() - i,
    {
        match skip_token(chars, i) {
            Some(end) => {
                i = end;
            },
            None => {
                return None;
            },
        }
    }
    Some(colorize_filter_query(query))
}

// ---------------------------------------------------------------------------
// The line
// ---------------------------------------------------------------------------

/// What stands on the line, and the cursor where it is there.
pub struct CommandLine {
    pub spans: Vec<Span>,
    pub cursor: Option<(u16, u16)>,
}

/// The word before a filter.
pub open spec fn filter_label(color: RatColor) -> Piece {
    span::styled("filter: "@, Style::plain().fg(color).with(Emphasis::bold()))
}

/// The line that shows a filter in force.
pub open spec fn active_filter_line(active: Seq<char>) -> Seq<Piece> {
    if query::query_of(active) is Ok {
        seq![filter_label(RatColor::Yellow)] + colored(active, 0)
    } else {
        seq![
            filter_label(RatColor::Red),
            span::styled(
                "[invalid: "@ + active + "]"@,
                Style::plain().fg(RatColor::Red).with(Emphasis::underlined().union(Emphasis::bold())),
            ),
        ]
    }
}

/// Whether a filter in force can be read and coloured.
pub open spec fn active_filter_fits(active: Seq<char>) -> bool {
    query::query_fits(active) && (query::query_of(active) is Ok ==> colors_fit(active, 0))
}

impl StateView {
    /// What stands on the line: the filter being typed, else the one in force.
    pub open spec fn command_line(self) -> Option<Seq<Piece>> {
        if self.prompt_mode == PromptMode::Filter {
            Some(seq![filter_label(RatColor::White)] + colored(self.input_buffer, 0))
        } else {
            match self.active_filter_str {
                Some(active) => Some(active_filter_line(active)),
                None => None,
            }
        }
    }

    /// The cursor on the line, while a filter is typed.
    pub open spec fn command_cursor(self, area: Area) -> Option<(u16, u16)> {
        if self.prompt_mode == PromptMode::Filter {
            let x = area.x + 8 + pane::coordinate(wrap::width_up_to(self.input_buffer, self.filter_cursor_col));
            Some((area.kept_x(x) as u16, area.y))
        } else {
            None
        }
    }

    /// Whether what stands on the line can be read and coloured.
    pub open spec fn command_fits(self) -> bool {
        if self.prompt_mode == PromptMode::Filter {
            colors_fit(self.input_buffer, 0)
        } else {
            self.active_filter_str matches Some(active) ==> active_filter_fits(active)
        }
    }
}

/// What an optional line holds.
pub open spec fn command_view(o: Option<CommandLine>) -> Option<Seq<Piece>> {
    match o {
        Some(c) => Some(span::spans_view(c.spans@)),
        None => None,
    }
}

/// The cursor on an optional line.
pub open spec fn cursor_view(o: Option<CommandLine>) -> Option<(u16, u16)> {
    match o {
        Some(c) => c.cursor,
        None => None,
    }
}

/// The word before a filter, and the filter in its colours.
fn label_and_colors(color: RatColor, filter: &str) -> (r: Vec<Span>)
    requires
        colors_fit(filter@, 0),
    ensures
        span::spans_view(r@) == seq![filter_label(color)] + colored(filter@, 0),
{
    let mut line: Vec<Span> = Vec::new();
    assert(span::spans_view(line@) =~= seq![]);
    put_str(&mut line, "filter: ", Style::plain().fg(color).with(Emphasis::bold()));
    let mut rest = colorize_filter_query(filter);
    let ghost before = line@;
    let ghost tail = rest@;
    line.append(&mut rest);
    assert(span::spans_view(line@) =~= span::spans_view(before) + span::spans_view(tail));
    assert(span::spans_view(before) =~= seq![filter_label(color)]);
    line
}

/// The line that shows a filter in force.
fn show_active(active: &str) -> (r: Vec<Span>)
    requires
        active_filter_fits(active@),
    ensures
        span::spans_view(r@) == active_filter_line(active@),
{
    if Query::parse(active).is_ok() {
        label_and_colors(RatColor::Yellow, active)
    } else {
        let mut line: Vec<Span> = Vec::new();
        assert(span::spans_view(line@) =~= seq![]);
        put_str(&mut line, "filter: ", Style::plain().fg(RatColor::Red).with(Emphasis::bold()));
        let mut words = "[invalid: ".to_owned();
        words.append(active);
        words.append("]");
        put(
            &mut line,
            words,
            Style::plain().fg(RatColor::Red).with(Emphasis::underlined().union(Emphasis::bold())),
        );
        assert(span::spans_view(line@) =~= active_filter_line(active@));
        line
    }
}

impl AppState {
    /// The line that a filter is typed on.
    pub fn render_command_line(&self, area: &Area) -> (r: Option<CommandLine>)
        requires
            self@.command_fits(),
        ensures
            command_view(r) == self@.command_line(),
            cursor_view(r) == self@.command_cursor(*area),
    {
        if self.prompt_mode == PromptMode::Filter {
            let spans = label_and_colors(RatColor::White, self.input_buffer.as_str());
            let before: usize = str_display_width_up_to(self.input_buffer.as_str(), self.filter_cursor_col);
            let x: u16 = area.keep_x(area.x as u128 + 8 + (before % 65536) as u128);
            Some(CommandLine { spans, cursor: Some((x, area.y)) })
        } else {
            match &self.active_filter_str {
                Some(active) => Some(CommandLine { spans: show_active(active.as_str()), cursor: None }),
                None => None,
            }
        }
    }

    /// The line that a filter is typed on, where it can be read and coloured.
    pub fn try_command_line(&self, area: &Area) -> (r: Option<Option<CommandLine>>)
        ensures
            r is Some == self@.command_fits(),
            r matches Some(c) ==> command_view(c) == self@.command_line() && cursor_view(c) == self@.command_cursor(
                *area,
            ),
    {
        if self.prompt_mode == PromptMode::Filter {
            if try_colorize(self.input_buffer.as_str()).is_none() {
                return None;
            }
        } else {
            match &self.active_filter_str {
                Some(active) => match Query::try_parse(active.as_str()) {
                    None => {
                        return None;
                    },
                    Some(parsed) => {
                        if parsed.is_ok() && try_colorize(active.as_str()).is_none() {
                            return None;
                        }
                    },
                },
                None => {},
            }
        }
        Some(self.render_command_line(area))
    }
}

} // verus!
