//! A log line: where it came from, its text, and the tag it is shown under.

use crate::ansi::{self, parse_ansi, AnsiSegment, Piece};
use crate::text::{chars_of, string_of};
use vstd::prelude::*;
use vstd::string::*;
use vstd::utf8::*;

verus! {

/// What an optional string holds.
pub open spec fn opt_view(o: Option<String>) -> Option<Seq<char>> {
    match o {
        Some(s) => Some(s@),
        None => None,
    }
}

/// A copy of an optional string.
pub fn copy_opt(o: &Option<String>) -> (r: Option<String>)
    ensures
        opt_view(r) == opt_view(*o),
{
    match o {
        Some(s) => Some(s.clone()),
        None => None,
    }
}

/// The first part of a text that is longer than `max` bytes, with an ellipsis
/// in place of the rest; a shorter text as it is.
pub open spec fn clipped(s: Seq<char>, max: int) -> Seq<char> {
    if encode_utf8(s).len() > max {
        decode_utf8(encode_utf8(s).subrange(0, max - 1)).push('…')
    } else {
        s
    }
}

/// Whether the cut falls between two characters.
pub open spec fn clips(s: Seq<char>, max: int) -> bool {
    encode_utf8(s).len() > max ==> max >= 1 && is_char_boundary(encode_utf8(s), max - 1)
}

/// Shortens a service name to at most `max_len` bytes and an ellipsis.
pub fn truncate_service(s: &str, max_len: usize) -> (r: String)
    requires
        clips(s@, max_len as int),
    ensures
        r@ == clipped(s@, max_len as int),
{
    if s.as_bytes().len() > max_len {
        let (head, _tail) = s.split_at(max_len - 1);
        proof {
            encode_utf8_decode_utf8(head@);
            assert(head.spec_bytes() =~= encode_utf8(s@).subrange(0, max_len - 1));
        }
        let mut v = chars_of(head);
        v.push('…');
        string_of(v.as_slice())
    } else {
        s.to_owned()
    }
}

/// Whether `truncate_service` takes this name and limit.
pub fn can_truncate(s: &str, max_len: usize) -> (r: bool)
    ensures
        r == clips(s@, max_len as int),
{
    if s.as_bytes().len() > max_len {
        max_len >= 1 && s.is_char_boundary(max_len - 1)
    } else {
        true
    }
}

/// An ASCII name that is too long keeps all but one of `max` characters; an
/// ASCII name is cut without fail.
pub proof fn law_ascii_names_clip(s: Seq<char>, max: int)
    requires
        is_ascii_chars(s),
        max >= 1,
    ensures
        s.len() > max ==> clipped(s, max) == s.take(max - 1).push('…'),
        s.len() <= max ==> clipped(s, max) == s,
        clips(s, max),
{
    is_ascii_chars_encode_utf8(s);
    if s.len() > max {
        let b = encode_utf8(s);
        let t = s.take(max - 1);
        assert(is_ascii_chars(t));
        is_ascii_chars_encode_utf8(t);
        assert(encode_utf8(t) =~= b.subrange(0, max - 1));
        encode_utf8_decode_utf8(t);
        encode_utf8_valid_utf8(s);
        lemma_ascii_boundary(s, max - 1);
    }
}

proof fn lemma_ascii_boundary(s: Seq<char>, i: int)
    requires
        is_ascii_chars(s),
        0 <= i <= s.len(),
    ensures
        is_char_boundary(encode_utf8(s), i),
{
    encode_utf8_valid_utf8(s);
    is_ascii_chars_encode_utf8(s);
    let b = encode_utf8(s);
    if i == s.len() {
        is_char_boundary_start_end_of_seq(b);
    } else {
        is_char_boundary_iff_is_leading_byte(b, i);
    }
}

/// A line of log.
#[derive(Debug)]
pub struct LogItem {
    pub service: String,
    pub content: String,
    pub segments: Vec<AnsiSegment>,
    pub level: Option<String>,
    pub timestamp: Option<String>,
    pub is_system: bool,
}

/// What a line of log holds.
#[verifier::ext_equal]
pub struct LogView {
    pub service: Seq<char>,
    pub content: Seq<char>,
    pub pieces: Seq<Piece>,
    pub level: Option<Seq<char>>,
    pub timestamp: Option<Seq<char>>,
    pub is_system: bool,
}

impl View for LogItem {
    type V = LogView;

    open spec fn view(&self) -> LogView {
        LogView {
            service: self.service@,
            content: self.content@,
            pieces: ansi::pieces_of(self.segments@),
            level: opt_view(self.level),
            timestamp: opt_view(self.timestamp),
            is_system: self.is_system,
        }
    }
}

/// What a list of lines holds.
pub open spec fn logs_view(v: Seq<LogItem>) -> Seq<LogView> {
    v.map_values(|x: LogItem| x@)
}

impl Clone for LogItem {
    fn clone(&self) -> (r: LogItem)
        ensures
            r@ == self@,
    {
        let mut segments: Vec<AnsiSegment> = Vec::new();
        let mut i: usize = 0;
        while i < self.segments.len()
            invariant
                i <= self.segments@.len(),
                ansi::pieces_of(segments@) == ansi::pieces_of(self.segments@).take(i as int),
            decreases self.segments@.len() - i,
        {
            let x = &self.segments[i];
            let ghost before = segments@;
            let copy = AnsiSegment { text: x.text.clone(), style: x.style };
            assert(copy@ == x@);
            segments.push(copy);
            assert(ansi::pieces_of(segments@) =~= ansi::pieces_of(before).push(copy@));
            i += 1;
            assert(ansi::pieces_of(segments@) =~= ansi::pieces_of(self.segments@).take(i as int));
        }
        assert(ansi::pieces_of(segments@) =~= ansi::pieces_of(self.segments@));
        LogItem {
            service: self.service.clone(),
            content: self.content.clone(),
            segments,
            level: copy_opt(&self.level),
            timestamp: copy_opt(&self.timestamp),
            is_system: self.is_system,
        }
    }
}

/// The tag that lines of a service are shown under.
pub open spec fn tag_of(service: Seq<char>) -> Seq<char> {
    seq!['['] + clipped(service, 16) + seq![']', ' ']
}

/// A text has no more characters than bytes.
proof fn lemma_chars_in_bytes(s: Seq<char>)
    ensures
        s.len() <= encode_utf8(s).len(),
    decreases s.len(),
{
    if s.len() > 0 {
        lemma_chars_in_bytes(s.drop_first());
    }
}

/// A tag is at most nineteen characters long.
pub proof fn law_tag_is_short(service: Seq<char>)
    requires
        clips(service, 16),
    ensures
        tag_of(service).len() <= 19,
{
    lemma_chars_in_bytes(service);
    let b = encode_utf8(service);
    if b.len() > 16 {
        encode_utf8_valid_utf8(service);
        valid_utf8_split(b, 15);
        decode_utf8_encode_utf8(b.subrange(0, 15));
        lemma_chars_in_bytes(decode_utf8(b.subrange(0, 15)));
    }
}

impl LogView {
    /// The line that a raw message makes.
    pub open spec fn made(
        service: Seq<char>,
        raw: Seq<char>,
        level: Option<Seq<char>>,
        timestamp: Option<Seq<char>>,
        is_system: bool,
    ) -> LogView {
        LogView { service, content: ansi::ansi_text(raw), pieces: ansi::ansi_pieces(raw), level, timestamp, is_system }
    }

    pub open spec fn tag(self) -> Seq<char> {
        tag_of(self.service)
    }

    /// The tag and the text; a system line has no tag.
    pub open spec fn full_line(self) -> Seq<char> {
        if self.is_system {
            self.content
        } else {
            self.tag() + self.content
        }
    }

    pub open spec fn prefix_len(self) -> nat {
        if self.is_system {
            0
        } else {
            self.tag().len()
        }
    }

    /// Whether the tag can be cut out of the service name.
    pub open spec fn tag_fits(self) -> bool {
        clips(self.service, 16)
    }
}

impl LogItem {
    pub fn new(
        service: String,
        raw_message: String,
        level: Option<String>,
        timestamp: Option<String>,
        is_system: bool,
    ) -> (r: LogItem)
        requires
            ansi::commands_ascii(raw_message@, 0),
        ensures
            r@ == LogView::made(service@, raw_message@, opt_view(level), opt_view(timestamp), is_system),
    {
        let (content, segments) = parse_ansi(raw_message.as_str());
        LogItem { service, content, segments, level, timestamp, is_system }
    }

    pub fn full_line_text(&self) -> (r: String)
        requires
            self.is_system || self@.tag_fits(),
        ensures
            r@ == self@.full_line(),
    {
        if self.is_system {
            return self.content.clone();
        }
        let mut r: String = self.tag_text();
        r.append(self.content.as_str());
        r
    }

    pub fn tag_text(&self) -> (r: String)
        requires
            self@.tag_fits(),
        ensures
            r@ == self@.tag(),
    {
        let name = chars_of(truncate_service(self.service.as_str(), 16).as_str());
        let mut v: Vec<char> = Vec::new();
        v.push('[');
        let mut name = name;
        v.append(&mut name);
        v.push(']');
        v.push(' ');
        assert(v@ =~= self@.tag());
        string_of(v.as_slice())
    }

    pub fn prefix_len(&self) -> (r: usize)
        requires
            self.is_system || self@.tag_fits(),
        ensures
            r == self@.prefix_len(),
    {
        if self.is_system {
            0
        } else {
            self.tag_text().as_str().unicode_len()
        }
    }
}

} // verus!
