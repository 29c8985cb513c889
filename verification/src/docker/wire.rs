//! Log lines as the engine sends them.

use super::clock::{self, normalize_ts};
use crate::logitem;
use crate::text::{self, chars_of, cut_at, skip_start, string_of, strip, Class};
use vstd::prelude::*;
use vstd::slice::slice_subrange;
use vstd::string::*;
use vstd::utf8::*;

verus! {

/// A text out of bytes that need not be text, as std reads them.
pub uninterp spec fn lossy_text(b: Seq<u8>) -> Seq<char>;

/// `String::from_utf8_lossy`: a function of the bytes alone, which reads valid
/// UTF-8 as the text it encodes; what stands in for other bytes is named, not spelled out.
#[verifier::external_body]
pub(crate) fn lossy(b: &[u8]) -> (r: String)
    ensures
        r@ == lossy_text(b@),
        valid_utf8(b@) ==> r@ == decode_utf8(b@),
{
    String::from_utf8_lossy(b).to_string()
}

/// `std::str::from_utf8`: the text that the bytes encode, if they are valid UTF-8.
#[verifier::external_body]
pub(crate) fn utf8_text(b: &[u8]) -> (r: Option<String>)
    ensures
        r is Some == valid_utf8(b@),
        r matches Some(s) ==> s@ == decode_utf8(b@),
{
    match std::str::from_utf8(b) {
        Ok(s) => Some(s.to_string()),
        Err(_) => None,
    }
}

/// Where a line comes from.
#[derive(Debug, Clone, Copy, PartialEq, Eq, Structural)]
pub enum StreamType {
    Stdout,
    Stderr,
    System,
}

/// A line of log as the engine gives it.
#[derive(Debug, Clone)]
pub struct DockerLogMsg {
    pub container_id: String,
    pub service_name: String,
    pub timestamp: Option<String>,
    pub message: String,
    pub stream_type: StreamType,
    pub is_system_event: bool,
}

/// What such a line holds.
#[verifier::ext_equal]
pub struct MsgView {
    pub container_id: Seq<char>,
    pub service_name: Seq<char>,
    pub timestamp: Option<Seq<char>>,
    pub message: Seq<char>,
    pub stream_type: StreamType,
    pub is_system_event: bool,
}

impl View for DockerLogMsg {
    type V = MsgView;

    open spec fn view(&self) -> MsgView {
        MsgView {
            container_id: self.container_id@,
            service_name: self.service_name@,
            timestamp: logitem::opt_view(self.timestamp),
            message: self.message@,
            stream_type: self.stream_type,
            is_system_event: self.is_system_event,
        }
    }
}

/// What each line of a list holds.
pub open spec fn msgs_view(v: Seq<DockerLogMsg>) -> Seq<MsgView> {
    v.map_values(|m: DockerLogMsg| m@)
}

/// Whether the line looks as if it began with a date.
pub open spec fn looks_dated(b: Seq<u8>) -> bool {
    b.len() >= 20 && b[4] == 45 && b[7] == 45 && (b[10] == 84 || b[10] == 32)
}

/// The date in front of a line, in normal form, and the rest of the line.
pub open spec fn dated(raw: Seq<char>) -> (Option<Seq<char>>, Seq<char>) {
    match text::split_once(raw, ' ') {
        Some((ts, rest)) => if looks_dated(encode_utf8(raw)) && encode_utf8(ts).len() <= 36 {
            (Some(clock::normalized(ts)), text::trim_start(rest, Class::Space))
        } else {
            (None, raw)
        },
        None => (None, raw),
    }
}

pub fn extract_docker_timestamp(raw: &str) -> (r: (Option<String>, String))
    ensures
        (logitem::opt_view(r.0), r.1@) == dated(raw@),
{
    let b = raw.as_bytes();
    let like: bool = b.len() >= 20 && b[4] == 45 && b[7] == 45 && (b[10] == 84 || b[10] == 32);
    assert(like == looks_dated(encode_utf8(raw@)));
    let v = chars_of(raw);
    match cut_at(v.as_slice(), Class::Not(' ')) {
        Some((ts, rest)) => {
            let ts = string_of(ts);
            if like && ts.as_str().as_bytes().len() <= 36 {
                return (Some(normalize_ts(ts.as_str())), string_of(skip_start(rest, Class::Space)));
            }
        },
        None => {},
    }
    (None, raw.to_owned())
}

/// The message that a raw line makes, unless the line is blank.
pub open spec fn log_line(raw: Seq<char>, id: Seq<char>, name: Seq<char>, st: StreamType) -> Option<MsgView> {
    let t = text::trim(raw, Class::LineEnd);
    if text::trimmed(t).len() == 0 {
        None
    } else {
        let (timestamp, message) = dated(t);
        Some(
            MsgView {
                container_id: id,
                service_name: name,
                timestamp,
                message,
                stream_type: st,
                is_system_event: false,
            },
        )
    }
}

pub fn parse_log_line(raw: &str, container_id: &str, service_name: &str, stream_type: StreamType) -> (r: Option<
    DockerLogMsg,
>)
    ensures
        r matches Some(m) ==> log_line(raw@, container_id@, service_name@, stream_type) == Some(m@),
        r is None ==> log_line(raw@, container_id@, service_name@, stream_type) is None,
{
    let v = chars_of(raw);
    let t = strip(v.as_slice(), Class::LineEnd);
    if strip(t, Class::Space).len() == 0 {
        return None;
    }
    let (timestamp, message) = extract_docker_timestamp(string_of(t).as_str());
    Some(
        DockerLogMsg {
            container_id: container_id.to_owned(),
            service_name: service_name.to_owned(),
            timestamp,
            message,
            stream_type,
            is_system_event: false,
        },
    )
}

// ---------------------------------------------------------------------------
// Lines out of bytes
// ---------------------------------------------------------------------------

/// The place of the first line feed from `i` on, or the end.
pub open spec fn line_end(b: Seq<u8>, i: int) -> int
    decreases b.len() - i,
{
    if 0 <= i < b.len() && b[i] != 10 {
        line_end(b, i + 1)
    } else {
        i
    }
}

pub proof fn lemma_line_end(b: Seq<u8>, i: int)
    requires
        0 <= i <= b.len(),
    ensures
        i <= line_end(b, i) <= b.len(),
        line_end(b, i) < b.len() ==> b[line_end(b, i)] == 10,
    decreases b.len() - i,
{
    if i < b.len() && b[i] != 10 {
        lemma_line_end(b, i + 1);
    }
}

/// The complete lines in the bytes, each with its line feed.
pub open spec fn full_lines(b: Seq<u8>) -> Seq<Seq<u8>>
    decreases b.len(),
{
    let n = line_end(b, 0);
    if 0 <= n < b.len() {
        seq![b.take(n + 1)] + full_lines(b.skip(n + 1))
    } else {
        seq![]
    }
}

/// What follows the last line feed.
pub open spec fn remainder(b: Seq<u8>) -> Seq<u8>
    decreases b.len(),
{
    let n = line_end(b, 0);
    if 0 <= n < b.len() {
        remainder(b.skip(n + 1))
    } else {
        b
    }
}

proof fn lemma_line_end_joined(a: Seq<u8>, b: Seq<u8>, i: int)
    requires
        0 <= i <= a.len(),
    ensures
        line_end(a, i) < a.len() ==> line_end(a + b, i) == line_end(a, i),
        line_end(a, i) == a.len() ==> line_end(a + b, i) == line_end(a + b, a.len() as int),
    decreases a.len() - i,
{
    if i < a.len() && a[i] != 10 {
        assert((a + b)[i] == a[i]);
        lemma_line_end_joined(a, b, i + 1);
    } else if i < a.len() {
        assert((a + b)[i] == a[i]);
    }
}

/// The messages that the lines make, in order.
pub open spec fn line_msgs(lines: Seq<Seq<u8>>, id: Seq<char>, name: Seq<char>, st: StreamType) -> Seq<MsgView>
    decreases lines.len(),
{
    if lines.len() == 0 {
        seq![]
    } else {
        let rest = line_msgs(lines.skip(1), id, name, st);
        match log_line(lossy_text(lines[0]), id, name, st) {
            Some(m) => seq![m] + rest,
            None => rest,
        }
    }
}

/// The messages of lines and of those that follow are those of all of them.
pub proof fn law_messages_of_more_lines(a: Seq<Seq<u8>>, b: Seq<Seq<u8>>, id: Seq<char>, name: Seq<char>, st: StreamType)
    ensures
        line_msgs(a + b, id, name, st) == line_msgs(a, id, name, st) + line_msgs(b, id, name, st),
    decreases a.len(),
{
    if a.len() == 0 {
        assert(a + b =~= b);
        assert(line_msgs(a + b, id, name, st) =~= line_msgs(a, id, name, st) + line_msgs(b, id, name, st));
    } else {
        law_messages_of_more_lines(a.skip(1), b, id, name, st);
        assert((a + b).skip(1) =~= a.skip(1) + b);
        assert((a + b)[0] == a[0]);
        assert(line_msgs(a + b, id, name, st) =~= line_msgs(a, id, name, st) + line_msgs(b, id, name, st));
    }
}

/// Lines, and the messages that they make, come out the same however the bytes are
/// cut into pieces.
pub proof fn law_lines_of_pieces(a: Seq<u8>, b: Seq<u8>)
    ensures
        full_lines(a + b) == full_lines(a) + full_lines(remainder(a) + b),
        remainder(a + b) == remainder(remainder(a) + b),
        forall|id: Seq<char>, name: Seq<char>, st: StreamType| #[trigger]
            line_msgs(full_lines(a + b), id, name, st) == line_msgs(full_lines(a), id, name, st) + line_msgs(
                full_lines(remainder(a) + b),
                id,
                name,
                st,
            ),
    decreases a.len(),
{
    let n = line_end(a, 0);
    lemma_line_end(a, 0);
    if n < a.len() {
        lemma_line_end_joined(a, b, 0);
        let rest = a.skip(n + 1);
        law_lines_of_pieces(rest, b);
        assert((a + b).skip(n + 1) =~= rest + b);
        assert((a + b).take(n + 1) =~= a.take(n + 1));
        assert(full_lines(a + b) =~= full_lines(a) + full_lines(remainder(a) + b));
    } else {
        assert(full_lines(a) =~= seq![]);
        assert(full_lines(a + b) =~= full_lines(a) + full_lines(a + b));
    }
    assert forall|id: Seq<char>, name: Seq<char>, st: StreamType| #[trigger]
        line_msgs(full_lines(a + b), id, name, st) == line_msgs(full_lines(a), id, name, st) + line_msgs(
            full_lines(remainder(a) + b),
            id,
            name,
            st,
        ) by {
        law_messages_of_more_lines(full_lines(a), full_lines(remainder(a) + b), id, name, st);
    }
}

/// Takes the complete lines off the front of the bytes.
pub fn drain_line_buffer(
    buf: &mut Vec<u8>,
    container_id: &str,
    service_name: &str,
    stream_type: StreamType,
    out: &mut Vec<DockerLogMsg>,
)
    ensures
        final(buf)@ == remainder(old(buf)@),
        msgs_view(final(out)@) == msgs_view(old(out)@) + line_msgs(
            full_lines(old(buf)@),
            container_id@,
            service_name@,
            stream_type,
        ),
{
    let ghost all = buf@;
    let ghost start = msgs_view(out@);
    let ghost (id, name) = (container_id@, service_name@);
    let mut from: usize = 0;
    assert(all.skip(0) =~= all);
    assert(msgs_view(out@) + line_msgs(full_lines(all), id, name, stream_type) =~= start + line_msgs(
        full_lines(all),
        id,
        name,
        stream_type,
    ));
    loop
        invariant_except_break
            from <= buf@.len(),
            buf@ == all,
            id == container_id@,
            name == service_name@,
            remainder(all) == remainder(all.skip(from as int)),
            msgs_view(out@) + line_msgs(full_lines(all.skip(from as int)), id, name, stream_type) == start
                + line_msgs(full_lines(all), id, name, stream_type),
        ensures
            from <= buf@.len(),
            buf@ == all,
            remainder(all) == all.skip(from as int),
            msgs_view(out@) == start + line_msgs(full_lines(all), id, name, stream_type),
        decreases buf@.len() - from,
    {
        let ghost here = all.skip(from as int);
        let end: usize = find_line_end(buf, from);
        proof {
            lemma_line_end_skip(all, from as int, from as int);
            lemma_line_end(here, 0);
        }
        if end >= buf.len() {
            assert(full_lines(here) =~= seq![]);
            assert(line_msgs(full_lines(here), id, name, stream_type) =~= seq![]);
            assert(msgs_view(out@) =~= start + line_msgs(full_lines(all), id, name, stream_type));
            break;
        }
        let ghost n = end - from;
        let line = slice_subrange(buf.as_slice(), from, end + 1);
        assert(line@ =~= here.take(n + 1));
        let raw = lossy(line);
        let ghost before = msgs_view(out@);
        let ghost lines = full_lines(here);
        assert(here.skip(n + 1) =~= all.skip(end + 1));
        assert(lines == seq![here.take(n + 1)] + full_lines(all.skip(end + 1)));
        assert(lines.skip(1) =~= full_lines(all.skip(end + 1)));
        assert(lines[0] == line@);
        match parse_log_line(raw.as_str(), container_id, service_name, stream_type) {
            Some(m) => {
                let ghost view = m@;
                out.push(m);
                assert(msgs_view(out@) =~= before.push(view));
            },
            None => {},
        }
        assert(msgs_view(out@) + line_msgs(full_lines(all.skip(end + 1)), id, name, stream_type) =~= before
            + line_msgs(lines, id, name, stream_type));
        from = end + 1;
    }
    let rest = buf.split_off(from);
    *buf = rest;
    assert(buf@ =~= all.skip(from as int));
}

fn find_line_end(b: &Vec<u8>, from: usize) -> (r: usize)
    requires
        from <= b@.len(),
    ensures
        r == line_end(b@, from as int),
        from <= r <= b@.len(),
{
    let mut i: usize = from;
    while i < b.len() && b[i] != 10
        invariant
            from <= i <= b@.len(),
            line_end(b@, from as int) == line_end(b@, i as int),
        decreases b@.len() - i,
    {
        i += 1;
    }
    i
}

proof fn lemma_line_end_skip(b: Seq<u8>, k: int, i: int)
    requires
        0 <= k <= i <= b.len(),
    ensures
        line_end(b, i) - k == line_end(b.skip(k), i - k),
    decreases b.len() - i,
{
    if i < b.len() && b[i] != 10 {
        assert(b.skip(k)[i - k] == b[i]);
        lemma_line_end_skip(b, k, i + 1);
    } else if i < b.len() {
        assert(b.skip(k)[i - k] == b[i]);
    }
}

/// The message that the bytes left over at the end make.
pub open spec fn flushed(b: Seq<u8>, id: Seq<char>, name: Seq<char>, st: StreamType) -> Seq<MsgView> {
    if b.len() == 0 {
        seq![]
    } else {
        match log_line(lossy_text(b), id, name, st) {
            Some(m) => seq![m],
            None => seq![],
        }
    }
}

/// Takes what is left of the bytes as a line.
pub fn flush_line_buffer(
    buf: &mut Vec<u8>,
    container_id: &str,
    service_name: &str,
    stream_type: StreamType,
    out: &mut Vec<DockerLogMsg>,
)
    ensures
        final(buf)@.len() == 0,
        msgs_view(final(out)@) == msgs_view(old(out)@) + flushed(
            old(buf)@,
            container_id@,
            service_name@,
            stream_type,
        ),
{
    let ghost before = msgs_view(out@);
    let ghost tail = flushed(buf@, container_id@, service_name@, stream_type);
    if buf.len() > 0 {
        let raw = lossy(buf.as_slice());
        match parse_log_line(raw.as_str(), container_id, service_name, stream_type) {
            Some(m) => {
                let ghost view = m@;
                out.push(m);
                assert(msgs_view(out@) =~= before + seq![view]);
            },
            None => {
                assert(msgs_view(out@) =~= before + tail);
            },
        }
        buf.clear();
    } else {
        assert(msgs_view(out@) =~= before + tail);
    }
}

} // verus!
