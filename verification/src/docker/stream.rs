//! Reading a stream of log: the headers of the answer, then frames of the two
//! output streams, in chunks or as they are, or else plain lines.

use super::http::{self, parse_chunk_size};
use super::wire::{
    self, drain_line_buffer, flush_line_buffer, lossy, parse_log_line, DockerLogMsg, MsgView, StreamType,
};
use crate::text::{self, chars_of, same_str, str_has, strip, to_lower, Class};
use vstd::prelude::*;

verus! {

/// What the reader waits for.
#[derive(Debug, Clone, Copy, PartialEq, Eq, Structural)]
pub enum Need {
    /// The next line.
    Line,
    /// So many bytes.
    Bytes(usize),
    /// Nothing: the stream is at its end.
    Nothing,
}

/// Where the reader stands.
#[derive(Debug, Clone, Copy, PartialEq, Eq, Structural)]
pub enum Phase {
    /// In the headers of the answer.
    Headers,
    /// Before a chunk.
    ChunkSize,
    /// In a chunk.
    ChunkData,
    /// Behind a chunk.
    ChunkEnd,
    /// In a frame that is not cut into chunks.
    Plain,
    /// In a line whose first bytes were taken for the head of a frame.
    Fallback,
    /// In plain lines.
    Lines,
    /// At the end.
    Ended,
}

/// What the stream holds so far.
#[verifier::ext_equal]
pub struct StreamView {
    pub container_id: Seq<char>,
    pub service_name: Seq<char>,
    pub live: bool,
    pub chunked: bool,
    pub framed: bool,
    pub phase: Phase,
    pub in_payload: bool,
    pub want: int,
    pub got: Seq<u8>,
    pub chunk_rem: int,
    pub frame: Seq<u8>,
    pub stdout: Seq<u8>,
    pub stderr: Seq<u8>,
}

/// The size that the last four bytes of a frame's head give.
pub open spec fn payload_size(h: Seq<u8>) -> int {
    h[4] * 16777216 + h[5] * 65536 + h[6] * 256 + h[7]
}

/// The stream that the first byte of a frame's head names.
pub open spec fn frame_stream(h: Seq<u8>) -> StreamType {
    if h[0] == 2 {
        StreamType::Stderr
    } else {
        StreamType::Stdout
    }
}

/// Whether eight bytes are the head of a frame.
pub open spec fn is_head(h: Seq<u8>) -> bool {
    h[1] == 0 && h[2] == 0 && h[3] == 0
}

impl StreamView {
    pub open spec fn opened(id: Seq<char>, name: Seq<char>, live: bool) -> StreamView {
        StreamView {
            container_id: id,
            service_name: name,
            live,
            chunked: false,
            framed: true,
            phase: Phase::Headers,
            in_payload: false,
            want: 0,
            got: seq![],
            chunk_rem: 0,
            frame: seq![],
            stdout: seq![],
            stderr: seq![],
        }
    }

    /// What holds wherever the reader stands.
    pub open spec fn valid(self) -> bool {
        &&& 0 <= self.chunk_rem <= usize::MAX
        &&& 0 <= self.want <= u32::MAX
        &&& self.got.len() <= self.want
        &&& self.phase is ChunkData ==> self.chunk_rem > 0 && self.got.len() < self.want
        &&& self.phase is ChunkSize ==> self.chunk_rem == 0 && self.got.len() < self.want
        &&& self.phase is ChunkEnd ==> self.chunk_rem == 0
        &&& self.phase is ChunkSize || self.phase is ChunkData || self.phase is ChunkEnd ==> self.chunked
        &&& self.phase is Plain ==> self.got.len() == 0 && !self.chunked
        &&& !self.in_payload && (self.phase is Plain || self.phase is ChunkData || self.phase is ChunkSize
            || self.phase is ChunkEnd) ==> self.want == 8
        &&& self.in_payload || self.phase is Fallback ==> self.frame.len() == 8
    }

    pub open spec fn need(self) -> Need {
        match self.phase {
            Phase::Headers | Phase::ChunkSize | Phase::Fallback | Phase::Lines => Need::Line,
            Phase::ChunkData => Need::Bytes(
                (if self.want - self.got.len() <= self.chunk_rem {
                    self.want - self.got.len()
                } else {
                    self.chunk_rem
                }) as usize,
            ),
            Phase::ChunkEnd => Need::Bytes(2),
            Phase::Plain => Need::Bytes(self.want as usize),
            Phase::Ended => Need::Nothing,
        }
    }

    /// The reader about to go on with the bytes it wants.
    pub open spec fn resumed(self) -> StreamView {
        StreamView {
            phase: if !self.chunked {
                Phase::Plain
            } else if self.chunk_rem == 0 {
                Phase::ChunkSize
            } else {
                Phase::ChunkData
            },
            ..self
        }
    }

    /// The reader before the head of a frame.
    pub open spec fn at_head(self) -> StreamView {
        (StreamView { in_payload: false, want: 8, got: seq![], ..self }).resumed()
    }

    /// The reader behind the headers.
    pub open spec fn headers_left(self) -> StreamView {
        if self.framed {
            self.at_head()
        } else {
            StreamView { phase: Phase::Lines, ..self }
        }
    }

    /// What is told of the lines that were left unfinished; a live stream tells nothing.
    pub open spec fn flushed_msgs(self) -> Seq<MsgView> {
        if self.live {
            seq![]
        } else {
            wire::flushed(self.stdout, self.container_id, self.service_name, StreamType::Stdout) + wire::flushed(
                self.stderr,
                self.container_id,
                self.service_name,
                StreamType::Stderr,
            )
        }
    }

    pub open spec fn flushed(self) -> StreamView {
        if self.live {
            self
        } else {
            StreamView { stdout: seq![], stderr: seq![], ..self }
        }
    }

    /// The reader after a frame could not be read.
    pub open spec fn failed(self) -> (StreamView, Seq<MsgView>) {
        (StreamView { phase: Phase::Ended, ..self.flushed() }, self.flushed_msgs())
    }

    /// The reader with the bytes of a frame taken in, and the lines that are complete with them.
    pub open spec fn payload_taken(self, data: Seq<u8>) -> (StreamView, Seq<MsgView>) {
        let st = frame_stream(self.frame);
        let all = (if st is Stderr {
            self.stderr
        } else {
            self.stdout
        }) + data;
        let msgs = wire::line_msgs(wire::full_lines(all), self.container_id, self.service_name, st);
        let rest = wire::remainder(all);
        (
            (if st is Stderr {
                StreamView { stderr: rest, ..self }
            } else {
                StreamView { stdout: rest, ..self }
            }).at_head(),
            msgs,
        )
    }

    /// The reader with all the bytes it wanted.
    pub open spec fn completed(self) -> (StreamView, Seq<MsgView>) {
        if self.in_payload {
            self.payload_taken(self.got)
        } else if !is_head(self.got) {
            (StreamView { phase: Phase::Fallback, frame: self.got, ..self }, seq![])
        } else {
            let size = payload_size(self.got);
            let s = StreamView { in_payload: true, frame: self.got, want: size, got: seq![], ..self };
            if self.chunked && size == 0 {
                s.payload_taken(seq![])
            } else {
                (s.resumed(), seq![])
            }
        }
    }

    /// The reader with a header line looked at.
    pub open spec fn header_seen(self, line: Seq<char>) -> StreamView {
        let lower = text::lowercase(line);
        StreamView {
            chunked: self.chunked || (text::contains(lower, "transfer-encoding"@) && text::contains(
                lower,
                "chunked"@,
            )),
            framed: self.framed && !text::contains(lower, "application/vnd.docker.raw-stream"@),
            ..self
        }
    }

    pub open spec fn line_msg(self, line: Seq<char>) -> Seq<MsgView> {
        match wire::log_line(line, self.container_id, self.service_name, StreamType::Stdout) {
            Some(m) => seq![m],
            None => seq![],
        }
    }

    /// The reader after a line: nothing if it could not be read, empty at the end of the stream.
    pub open spec fn after_line(self, line: Option<Seq<char>>) -> (StreamView, Seq<MsgView>) {
        match self.phase {
            Phase::Headers => match line {
                None => if self.live {
                    (StreamView { phase: Phase::Ended, ..self }, seq![])
                } else {
                    (self.headers_left(), seq![])
                },
                Some(l) => if l.len() == 0 || l == "\r\n"@ || l == "\n"@ {
                    (self.headers_left(), seq![])
                } else {
                    (self.header_seen(l), seq![])
                },
            },
            Phase::ChunkSize => match line {
                None => self.failed(),
                Some(l) => if l.len() == 0 {
                    self.failed()
                } else if text::trimmed(l).len() == 0 {
                    (self, seq![])
                } else {
                    match http::chunk_size(l) {
                        Some(n) => if n == 0 {
                            self.failed()
                        } else {
                            (StreamView { chunk_rem: n, phase: Phase::ChunkData, ..self }, seq![])
                        },
                        None => self.failed(),
                    }
                },
            },
            Phase::Fallback => {
                let rest = match line {
                    Some(l) => l,
                    None => seq![],
                };
                (
                    StreamView { phase: Phase::Lines, framed: false, ..self.flushed() },
                    self.line_msg(wire::lossy_text(self.frame) + rest) + self.flushed_msgs(),
                )
            },
            Phase::Lines => match line {
                None => (StreamView { phase: Phase::Ended, ..self }, seq![]),
                Some(l) => if l.len() == 0 {
                    (StreamView { phase: Phase::Ended, ..self }, seq![])
                } else {
                    (self, self.line_msg(l))
                },
            },
            _ => (self, seq![]),
        }
    }

    /// The reader after bytes: nothing if they could not be read.
    pub open spec fn after_bytes(self, bytes: Option<Seq<u8>>) -> (StreamView, Seq<MsgView>) {
        match self.phase {
            Phase::Plain => match bytes {
                None => self.failed(),
                Some(b) => (StreamView { got: b, ..self }).completed(),
            },
            Phase::ChunkData => match bytes {
                None => self.failed(),
                Some(b) => {
                    let s = StreamView { got: self.got + b, chunk_rem: self.chunk_rem - b.len(), ..self };
                    if s.chunk_rem == 0 {
                        (StreamView { phase: Phase::ChunkEnd, ..s }, seq![])
                    } else if s.got.len() >= s.want {
                        s.completed()
                    } else {
                        (s.resumed(), seq![])
                    }
                },
            },
            Phase::ChunkEnd => if self.got.len() >= self.want {
                self.completed()
            } else {
                (self.resumed(), seq![])
            },
            _ => (self, seq![]),
        }
    }
}

/// A reader that has all it wanted goes on as it should.
proof fn lemma_completed(s: StreamView)
    requires
        0 <= s.chunk_rem <= usize::MAX,
        s.got.len() == s.want,
        s.in_payload ==> s.frame.len() == 8,
        !s.in_payload ==> s.want == 8,
    ensures
        s.completed().0.valid(),
{
    if !s.in_payload && is_head(s.got) {
        let h = s.got;
        assert(0 <= payload_size(h) <= u32::MAX);
    }
}

/// A reader of a stream of log.
pub struct LogStream {
    container_id: String,
    service_name: String,
    live: bool,
    chunked: bool,
    framed: bool,
    phase: Phase,
    in_payload: bool,
    want: usize,
    got: Vec<u8>,
    chunk_rem: usize,
    frame: Vec<u8>,
    stdout: Vec<u8>,
    stderr: Vec<u8>,
}

impl View for LogStream {
    type V = StreamView;

    closed spec fn view(&self) -> StreamView {
        StreamView {
            container_id: self.container_id@,
            service_name: self.service_name@,
            live: self.live,
            chunked: self.chunked,
            framed: self.framed,
            phase: self.phase,
            in_payload: self.in_payload,
            want: self.want as int,
            got: self.got@,
            chunk_rem: self.chunk_rem as int,
            frame: self.frame@,
            stdout: self.stdout@,
            stderr: self.stderr@,
        }
    }
}

/// What an optional text holds.
pub open spec fn opt_line(o: Option<String>) -> Option<Seq<char>> {
    match o {
        Some(s) => Some(s@),
        None => None,
    }
}

/// What optional bytes are.
pub open spec fn opt_bytes(o: Option<Vec<u8>>) -> Option<Seq<u8>> {
    match o {
        Some(v) => Some(v@),
        None => None,
    }
}

impl LogStream {
    /// A reader at the start of an answer. A live stream goes on until it is cut
    /// off; another one ends with the lines it has.
    pub fn new(container_id: &str, service_name: &str, live: bool) -> (r: LogStream)
        ensures
            r@ == StreamView::opened(container_id@, service_name@, live),
            r@.valid(),
    {
        LogStream {
            container_id: container_id.to_owned(),
            service_name: service_name.to_owned(),
            live,
            chunked: false,
            framed: true,
            phase: Phase::Headers,
            in_payload: false,
            want: 0,
            got: Vec::new(),
            chunk_rem: 0,
            frame: Vec::new(),
            stdout: Vec::new(),
            stderr: Vec::new(),
        }
    }

    /// What the reader waits for.
    pub fn need(&self) -> (r: Need)
        requires
            self@.valid(),
        ensures
            r == self@.need(),
    {
        match self.phase {
            Phase::Headers | Phase::ChunkSize | Phase::Fallback | Phase::Lines => Need::Line,
            Phase::ChunkData => {
                let left: usize = self.want - self.got.len();
                Need::Bytes(
                    if left <= self.chunk_rem {
                        left
                    } else {
                        self.chunk_rem
                    },
                )
            },
            Phase::ChunkEnd => Need::Bytes(2),
            Phase::Plain => Need::Bytes(self.want),
            Phase::Ended => Need::Nothing,
        }
    }

    fn resume(&mut self)
        ensures
            final(self)@ == old(self)@.resumed(),
    {
        self.phase = if !self.chunked {
            Phase::Plain
        } else if self.chunk_rem == 0 {
            Phase::ChunkSize
        } else {
            Phase::ChunkData
        };
    }

    fn start_head(&mut self)
        ensures
            final(self)@ == old(self)@.at_head(),
    {
        self.in_payload = false;
        self.want = 8;
        self.got = Vec::new();
        self.resume();
    }

    fn leave_headers(&mut self)
        ensures
            final(self)@ == old(self)@.headers_left(),
    {
        if self.framed {
            self.start_head();
        } else {
            self.phase = Phase::Lines;
        }
    }

    fn flush(&mut self, out: &mut Vec<DockerLogMsg>)
        ensures
            final(self)@ == old(self)@.flushed(),
            wire::msgs_view(final(out)@) == wire::msgs_view(old(out)@) + old(self)@.flushed_msgs(),
    {
        let ghost before = wire::msgs_view(out@);
        let ghost all = self@.flushed_msgs();
        if !self.live {
            flush_line_buffer(
                &mut self.stdout,
                self.container_id.as_str(),
                self.service_name.as_str(),
                StreamType::Stdout,
                out,
            );
            flush_line_buffer(
                &mut self.stderr,
                self.container_id.as_str(),
                self.service_name.as_str(),
                StreamType::Stderr,
                out,
            );
        }
        assert(wire::msgs_view(out@) =~= before + all);
    }

    fn fail(&mut self, out: &mut Vec<DockerLogMsg>)
        ensures
            final(self)@ == old(self)@.failed().0,
            wire::msgs_view(final(out)@) == wire::msgs_view(old(out)@) + old(self)@.failed().1,
    {
        self.flush(out);
        self.phase = Phase::Ended;
    }

    /// Takes in the bytes of a frame.
    fn take_payload(&mut self, data: Vec<u8>, out: &mut Vec<DockerLogMsg>)
        requires
            old(self)@.frame.len() == 8,
        ensures
            final(self)@ == old(self)@.payload_taken(data@).0,
            wire::msgs_view(final(out)@) == wire::msgs_view(old(out)@) + old(self)@.payload_taken(data@).1,
    {
        let mut data = data;
        if self.frame[0] == 2 {
            self.stderr.append(&mut data);
            drain_line_buffer(
                &mut self.stderr,
                self.container_id.as_str(),
                self.service_name.as_str(),
                StreamType::Stderr,
                out,
            );
        } else {
            self.stdout.append(&mut data);
            drain_line_buffer(
                &mut self.stdout,
                self.container_id.as_str(),
                self.service_name.as_str(),
                StreamType::Stdout,
                out,
            );
        }
        self.start_head();
    }

    /// Goes on with all the bytes that were wanted.
    fn complete(&mut self, out: &mut Vec<DockerLogMsg>)
        requires
            old(self)@.got.len() == old(self)@.want,
            old(self)@.in_payload ==> old(self)@.frame.len() == 8,
            !old(self)@.in_payload ==> old(self)@.want == 8,
        ensures
            final(self)@ == old(self)@.completed().0,
            wire::msgs_view(final(out)@) == wire::msgs_view(old(out)@) + old(self)@.completed().1,
    {
        let ghost before = wire::msgs_view(out@);
        let mut data: Vec<u8> = Vec::new();
        if self.in_payload {
            let ghost kept = self.got@;
            data.append(&mut self.got);
            assert(data@ =~= kept);
            self.take_payload(data, out);
        } else {
            let ghost kept = self.got@;
            data.append(&mut self.got);
            assert(data@ =~= kept);
            self.frame = data;
            if self.frame[1] != 0 || self.frame[2] != 0 || self.frame[3] != 0 {
                self.phase = Phase::Fallback;
                let mut copy: Vec<u8> = Vec::new();
                copy.extend_from_slice(self.frame.as_slice());
                assert(copy@ =~= kept);
                self.got = copy;
                assert(wire::msgs_view(out@) =~= before + seq![]);
            } else {
                let size: u32 = self.frame[4] as u32 * 16777216 + self.frame[5] as u32 * 65536 + self.frame[6] as u32
                    * 256 + self.frame[7] as u32;
                self.in_payload = true;
                self.want = size as usize;
                self.got = Vec::new();
                if self.chunked && size == 0 {
                    let none: Vec<u8> = Vec::new();
                    self.take_payload(none, out);
                } else {
                    self.resume();
                    assert(wire::msgs_view(out@) =~= before + seq![]);
                }
            }
        }
    }

    fn see_header(&mut self, line: &str)
        ensures
            final(self)@ == old(self)@.header_seen(line@),
    {
        let lower = to_lower(line);
        if str_has(lower.as_str(), "transfer-encoding") && str_has(lower.as_str(), "chunked") {
            self.chunked = true;
        }
        if str_has(lower.as_str(), "application/vnd.docker.raw-stream") {
            self.framed = false;
        }
    }

    fn tell_line(&self, line: &str, out: &mut Vec<DockerLogMsg>)
        ensures
            wire::msgs_view(final(out)@) == wire::msgs_view(old(out)@) + self@.line_msg(line@),
    {
        let ghost before = wire::msgs_view(out@);
        match parse_log_line(line, self.container_id.as_str(), self.service_name.as_str(), StreamType::Stdout) {
            Some(m) => {
                let ghost view = m@;
                out.push(m);
                assert(wire::msgs_view(out@) =~= before + seq![view]);
            },
            None => {
                assert(wire::msgs_view(out@) =~= before + seq![]);
            },
        }
    }

    /// Goes on with a line of the headers.
    fn header_line(&mut self, line: Option<String>)
        requires
            old(self)@.phase is Headers,
        ensures
            final(self)@ == old(self)@.after_line(opt_line(line)).0,
    {
        match line {
            None => {
                if self.live {
                    self.phase = Phase::Ended;
                } else {
                    self.leave_headers();
                }
            },
            Some(l) => {
                if l.as_str().unicode_len() == 0 || same_str(l.as_str(), "\r\n") || same_str(l.as_str(), "\n") {
                    self.leave_headers();
                } else {
                    self.see_header(l.as_str());
                }
            },
        }
    }

    /// Goes on with the line that gives the size of a chunk.
    fn size_line(&mut self, line: Option<String>, out: &mut Vec<DockerLogMsg>)
        requires
            old(self)@.phase is ChunkSize,
            old(self)@.valid(),
        ensures
            final(self)@ == old(self)@.after_line(opt_line(line)).0,
            wire::msgs_view(final(out)@) == wire::msgs_view(old(out)@) + old(self)@.after_line(opt_line(line)).1,
    {
        let ghost before = wire::msgs_view(out@);
        let l = match line {
            Some(l) => l,
            None => {
                self.fail(out);
                return;
            },
        };
        if l.as_str().unicode_len() == 0 {
            self.fail(out);
            return;
        }
        let v = chars_of(l.as_str());
        if strip(v.as_slice(), Class::Space).len() == 0 {
            assert(wire::msgs_view(out@) =~= before + seq![]);
            return;
        }
        match parse_chunk_size(l.as_str()) {
            Some(n) => {
                if n == 0 {
                    self.fail(out);
                } else {
                    self.chunk_rem = n;
                    self.phase = Phase::ChunkData;
                    assert(wire::msgs_view(out@) =~= before + seq![]);
                }
            },
            None => self.fail(out),
        }
    }

    /// Goes on with the rest of a line that was taken for a frame.
    fn fallback_line(&mut self, line: Option<String>, out: &mut Vec<DockerLogMsg>)
        requires
            old(self)@.phase is Fallback,
        ensures
            final(self)@ == old(self)@.after_line(opt_line(line)).0,
            wire::msgs_view(final(out)@) == wire::msgs_view(old(out)@) + old(self)@.after_line(opt_line(line)).1,
    {
        let ghost before = wire::msgs_view(out@);
        let ghost start = self@;
        let mut whole = lossy(self.frame.as_slice());
        match line {
            Some(l) => {
                whole.append(l.as_str());
            },
            None => {},
        }
        assert(whole@ =~= wire::lossy_text(start.frame) + (match opt_line(line) {
            Some(l) => l,
            None => seq![],
        }));
        self.tell_line(whole.as_str(), out);
        self.flush(out);
        self.phase = Phase::Lines;
        self.framed = false;
        assert(wire::msgs_view(out@) =~= before + start.after_line(opt_line(line)).1);
    }

    /// Hands the reader a line: nothing if it could not be read, empty at the end
    /// of the stream. The messages that are complete with it.
    pub fn on_line(&mut self, line: Option<String>) -> (r: Vec<DockerLogMsg>)
        requires
            old(self)@.valid(),
        ensures
            final(self)@ == old(self)@.after_line(opt_line(line)).0,
            wire::msgs_view(r@) == old(self)@.after_line(opt_line(line)).1,
            final(self)@.valid(),
    {
        let mut out: Vec<DockerLogMsg> = Vec::new();
        assert(wire::msgs_view(out@) =~= seq![]);
        let ghost want = self@.after_line(opt_line(line)).1;
        assert(Seq::<MsgView>::empty() + want =~= want);
        match self.phase {
            Phase::Headers => self.header_line(line),
            Phase::ChunkSize => self.size_line(line, &mut out),
            Phase::Fallback => self.fallback_line(line, &mut out),
            Phase::Lines => match line {
                None => {
                    self.phase = Phase::Ended;
                },
                Some(l) => {
                    if l.as_str().unicode_len() == 0 {
                        self.phase = Phase::Ended;
                    } else {
                        self.tell_line(l.as_str(), &mut out);
                    }
                },
            },
            _ => {},
        }
        assert(wire::msgs_view(out@) =~= want);
        out
    }

    /// Hands the reader the bytes it waits for: nothing if they could not be read.
    /// The messages that are complete with them.
    pub fn on_bytes(&mut self, bytes: Option<Vec<u8>>) -> (r: Vec<DockerLogMsg>)
        requires
            old(self)@.valid(),
            old(self)@.need() matches Need::Bytes(n) && bytes matches Some(b) ==> b@.len() == n,
        ensures
            final(self)@ == old(self)@.after_bytes(opt_bytes(bytes)).0,
            wire::msgs_view(r@) == old(self)@.after_bytes(opt_bytes(bytes)).1,
            final(self)@.valid(),
    {
        let mut out: Vec<DockerLogMsg> = Vec::new();
        assert(wire::msgs_view(out@) =~= seq![]);
        let ghost want = self@.after_bytes(opt_bytes(bytes)).1;
        assert(Seq::<MsgView>::empty() + want =~= want);
        match self.phase {
            Phase::Plain => match bytes {
                None => self.fail(&mut out),
                Some(b) => {
                    self.got = b;
                    proof {
                        lemma_completed(self@);
                    }
                    self.complete(&mut out);
                },
            },
            Phase::ChunkData => match bytes {
                None => self.fail(&mut out),
                Some(b) => {
                    let n: usize = b.len();
                    let mut b = b;
                    self.got.append(&mut b);
                    self.chunk_rem = self.chunk_rem - n;
                    if self.chunk_rem == 0 {
                        self.phase = Phase::ChunkEnd;
                    } else if self.got.len() >= self.want {
                        proof {
                            lemma_completed(self@);
                        }
                        self.complete(&mut out);
                    } else {
                        self.resume();
                    }
                },
            },
            Phase::ChunkEnd => {
                if self.got.len() >= self.want {
                    proof {
                        lemma_completed(self@);
                    }
                    self.complete(&mut out);
                } else {
                    self.resume();
                }
            },
            _ => {},
        }
        assert(wire::msgs_view(out@) =~= want);
        out
    }
}

/// The head of a frame of `n` bytes of an output stream.
pub open spec fn frame_head(st: StreamType, n: int) -> Seq<u8> {
    seq![
        if st is Stderr {
            2u8
        } else {
            1u8
        },
        0u8,
        0u8,
        0u8,
        (n / 16777216) as u8,
        (n / 65536 % 256) as u8,
        (n / 256 % 256) as u8,
        (n % 256) as u8,
    ]
}

/// What is sent in a frame is read back: after its head the reader waits for as
/// many bytes as the frame holds, and with them come the lines of that stream
/// which they complete; what they leave unfinished is kept, and the other stream
/// is left alone.
pub proof fn law_frame_reads_back(s: StreamView, st: StreamType, data: Seq<u8>)
    requires
        s.valid(),
        s.phase is Plain,
        !s.in_payload,
        st is Stdout || st is Stderr,
        data.len() <= u32::MAX,
    ensures
        ({
            let n = data.len() as int;
            let (headed, none) = s.after_bytes(Some(frame_head(st, n)));
            let (read, msgs) = headed.after_bytes(Some(data));
            let before = if st is Stderr {
                s.stderr
            } else {
                s.stdout
            };
            let all = before + data;
            &&& none.len() == 0
            &&& headed.need() == Need::Bytes(n as usize)
            &&& msgs == wire::line_msgs(wire::full_lines(all), s.container_id, s.service_name, st)
            &&& read.stderr == (if st is Stderr {
                wire::remainder(all)
            } else {
                s.stderr
            })
            &&& read.stdout == (if st is Stderr {
                s.stdout
            } else {
                wire::remainder(all)
            })
            &&& read.need() == Need::Bytes(8)
            &&& read.valid()
        }),
{
    let n = data.len() as int;
    let h = frame_head(st, n);
    assert(payload_size(h) == n);
    let headed = s.after_bytes(Some(h)).0;
    assert(headed.want == n);
    lemma_completed(StreamView { got: h, ..s });
    lemma_completed(StreamView { got: data, ..headed });
}

} // verus!
