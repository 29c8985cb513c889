//! What the engine's answers come to, whole or in pieces.

use super::clock;
use super::events::{self, Action, Event};
use super::http;
use super::json::{JsonView, Step};
use super::stream::{self, Need, Phase, StreamView};
use super::wire::{self, MsgView, StreamType};
use crate::text::{self, Class};
use vstd::prelude::*;
use vstd::utf8::*;

verus! {

// ---------------------------------------------------------------------------
// Lines
// ---------------------------------------------------------------------------

/// The pieces, one behind the other.
pub open spec fn joined(pieces: Seq<Seq<u8>>) -> Seq<u8>
    decreases pieces.len(),
{
    if pieces.len() == 0 {
        seq![]
    } else {
        pieces[0] + joined(pieces.skip(1))
    }
}

/// The complete lines and what is left over make up the bytes; each line ends with its
/// only line feed, and what is left over has none.
pub proof fn law_lines_make_up_bytes(b: Seq<u8>)
    ensures
        joined(wire::full_lines(b)) + wire::remainder(b) == b,
        forall|k: int|
            0 <= k < wire::full_lines(b).len() ==> {
                let line = #[trigger] wire::full_lines(b)[k];
                line.len() > 0 && line.last() == 10 && !line.drop_last().contains(10u8)
            },
        !wire::remainder(b).contains(10u8),
    decreases b.len(),
{
    let n = wire::line_end(b, 0);
    wire::lemma_line_end(b, 0);
    lemma_no_feed_before(b, 0);
    let lines = wire::full_lines(b);
    if n < b.len() {
        let rest = b.skip(n + 1);
        law_lines_make_up_bytes(rest);
        let line = b.take(n + 1);
        let more = wire::full_lines(rest);
        assert(lines.skip(1) =~= more);
        assert(joined(lines) + wire::remainder(b) =~= b) by {
            assert(joined(lines) == line + joined(more));
            assert(line + joined(more) + wire::remainder(rest) =~= line + (joined(more) + wire::remainder(rest)));
            assert(line + rest =~= b);
        }
        assert(!line.drop_last().contains(10u8)) by {
            assert forall|i: int| 0 <= i < line.len() - 1 implies line.drop_last()[i] != 10 by {
                assert(line.drop_last()[i] == b[i]);
            }
        }
        assert forall|k: int| 0 <= k < lines.len() implies {
            let line = #[trigger] lines[k];
            line.len() > 0 && line.last() == 10 && !line.drop_last().contains(10u8)
        } by {
            if k > 0 {
                assert(lines[k] == more[k - 1]);
            }
        }
    } else {
        assert(joined(lines) + wire::remainder(b) =~= b);
    }
}

proof fn lemma_no_feed_before(b: Seq<u8>, i: int)
    requires
        0 <= i <= b.len(),
    ensures
        forall|j: int| i <= j < wire::line_end(b, i) ==> #[trigger] b[j] != 10,
    decreases b.len() - i,
{
    if i < b.len() && b[i] != 10 {
        lemma_no_feed_before(b, i + 1);
    }
}

/// A line makes one message, unless it is blank.
pub proof fn law_line_is_told_once(line: Seq<u8>, id: Seq<char>, name: Seq<char>, st: StreamType)
    ensures
        ({
            let msgs = wire::line_msgs(seq![line], id, name, st);
            let blank = text::trimmed(text::trim(wire::lossy_text(line), Class::LineEnd)).len() == 0;
            &&& blank ==> msgs.len() == 0
            &&& !blank ==> msgs.len() == 1 && msgs[0].container_id == id && msgs[0].service_name == name
                && msgs[0].stream_type == st && !msgs[0].is_system_event
        }),
{
    let lines = seq![line];
    assert(lines.skip(1) =~= Seq::<Seq<u8>>::empty());
    assert(wire::line_msgs(lines.skip(1), id, name, st) =~= seq![]);
}

proof fn lemma_ends_stay(s: Seq<char>, k: Class)
    requires
        s.len() > 0,
        !k.has(s[0]),
        !k.has(s.last()),
    ensures
        text::trim(s, k) == s,
        text::trim_start(s, k) == s,
{
    assert(text::run_end(s, 0, k) == 0);
    assert(s.skip(0) =~= s);
    assert(text::run_start(s, s.len() as int, k) == s.len());
    assert(s.take(s.len() as int) =~= s);
}

proof fn lemma_run_over(s: Seq<char>, i: int, n: int, k: Class)
    requires
        0 <= i <= n < s.len(),
        forall|j: int| i <= j < n ==> k.has(#[trigger] s[j]),
        !k.has(s[n]),
    ensures
        text::run_end(s, i, k) == n,
    decreases n - i,
{
    if i < n {
        assert(k.has(s[i]));
        lemma_run_over(s, i + 1, n, k);
    }
}

/// A date, a blank and a text make a message of that text with that date.
pub proof fn law_dated_line(ts: Seq<char>, msg: Seq<char>, id: Seq<char>, name: Seq<char>, st: StreamType)
    requires
        !ts.contains(' '),
        ts.len() > 0,
        !text::whitespace(ts[0]),
        msg.len() > 0,
        !text::whitespace(msg[0]),
        !text::whitespace(msg.last()),
        encode_utf8(ts).len() <= 36,
        wire::looks_dated(encode_utf8(ts + seq![' '] + msg)),
    ensures
        wire::log_line(ts + seq![' '] + msg, id, name, st) == Some(
            MsgView {
                container_id: id,
                service_name: name,
                timestamp: Some(clock::normalized(ts)),
                message: msg,
                stream_type: st,
                is_system_event: false,
            },
        ),
{
    let raw = ts + seq![' '] + msg;
    let n = ts.len() as int;
    assert(raw[0] == ts[0] && raw.last() == msg.last());
    lemma_ends_stay(raw, Class::LineEnd);
    lemma_ends_stay(raw, Class::Space);
    lemma_ends_stay(msg, Class::Space);
    assert forall|j: int| 0 <= j < n implies Class::Not(' ').has(#[trigger] raw[j]) by {
        assert(raw[j] == ts[j]);
        assert(ts.contains(ts[j]));
    }
    assert(raw[n] == ' ');
    lemma_run_over(raw, 0, n, Class::Not(' '));
    assert(raw.take(n) =~= ts);
    assert(raw.skip(n + 1) =~= msg);
}

/// A line that does not look as if it began with a date is its own message.
pub proof fn law_undated_line(raw: Seq<char>, id: Seq<char>, name: Seq<char>, st: StreamType)
    requires
        raw.len() > 0,
        !text::whitespace(raw[0]),
        !text::whitespace(raw.last()),
        !wire::looks_dated(encode_utf8(raw)),
    ensures
        wire::log_line(raw, id, name, st) matches Some(m) && m.message == raw && m.timestamp is None
            && m.container_id == id && m.service_name == name && m.stream_type == st,
{
    lemma_ends_stay(raw, Class::LineEnd);
    lemma_ends_stay(raw, Class::Space);
}

/// The end of a line is no part of its message.
pub proof fn law_line_end_is_dropped(raw: Seq<char>, id: Seq<char>, name: Seq<char>, st: StreamType)
    requires
        raw.len() > 0,
        !text::whitespace(raw[0]),
        !text::whitespace(raw.last()),
    ensures
        wire::log_line(raw + seq!['\n'], id, name, st) == wire::log_line(raw, id, name, st),
        wire::log_line(raw + seq!['\r', '\n'], id, name, st) == wire::log_line(raw, id, name, st),
{
    lemma_ends_stay(raw, Class::LineEnd);
    let a = raw + seq!['\n'];
    let b = raw + seq!['\r', '\n'];
    let n = raw.len() as int;
    let k = Class::LineEnd;
    assert(a[0] == raw[0] && b[0] == raw[0]);
    assert(text::run_end(a, 0, k) == 0);
    assert(text::run_end(b, 0, k) == 0);
    assert(a.skip(0) =~= a && b.skip(0) =~= b);
    assert(a[n - 1] == raw.last() && b[n - 1] == raw.last());
    assert(text::run_start(a, n, k) == n);
    assert(text::run_start(a, n + 1, k) == n);
    assert(text::run_start(b, n, k) == n);
    assert(b[n] == '\r');
    assert(text::run_start(b, n + 1, k) == n);
    assert(text::run_start(b, n + 2, k) == n);
    assert(a.take(n) =~= raw && b.take(n) =~= raw);
}

// ---------------------------------------------------------------------------
// Dates
// ---------------------------------------------------------------------------

proof fn lemma_only_digits(d: Seq<char>)
    requires
        forall|i: int| 0 <= i < d.len() ==> '0' <= #[trigger] d[i] <= '9',
    ensures
        crate::query::time::digits_in(d) == d,
    decreases d.len(),
{
    reveal(Seq::filter);
    if d.len() > 0 {
        let e = d.drop_last();
        assert forall|i: int| 0 <= i < e.len() implies '0' <= #[trigger] e[i] <= '9' by {
            assert(e[i] == d[i]);
        }
        lemma_only_digits(e);
        assert('0' <= d[d.len() - 1] <= '9');
        assert(e.push(d.last()) =~= d);
    }
}

/// In its normal form a date keeps what stands before the fraction; the fraction has
/// nine digits, its own first ones and then zeros, and a `Z` ends it, whether one stood
/// there before or not.
pub proof fn law_fraction_has_nine_digits(main: Seq<char>, frac: Seq<char>)
    requires
        !main.contains('.'),
        frac.len() > 0,
        forall|i: int| 0 <= i < frac.len() ==> '0' <= #[trigger] frac[i] <= '9',
    ensures
        ({
            let n = clock::normalized(main + seq!['.'] + frac + seq!['Z']);
            &&& n == clock::normalized(main + seq!['.'] + frac)
            &&& n.len() == main.len() + 11
            &&& n.take(main.len() as int) == main
            &&& n[main.len() as int] == '.'
            &&& n.last() == 'Z'
            &&& forall|i: int|
                0 <= i < 9 ==> #[trigger] n[main.len() + 1 + i] == (if i < frac.len() {
                    frac[i]
                } else {
                    '0'
                })
        }),
{
    let body = main + seq!['.'] + frac;
    let ts = body + seq!['Z'];
    let k = body.len() as int;
    assert('0' <= frac[frac.len() - 1] <= '9');
    assert(body[k - 1] == frac.last());
    assert(text::run_start(body, k, Class::Is('Z')) == k);
    assert(body.take(k) =~= body);
    assert(ts[k] == 'Z' && ts[k - 1] == frac.last());
    assert(text::run_start(ts, k, Class::Is('Z')) == k);
    assert(text::run_start(ts, k + 1, Class::Is('Z')) == k);
    assert(ts.take(k) =~= body);
    clock::lemma_cut_at_mark(main, '.', frac);
    lemma_only_digits(frac);
    let nine = clock::nine_digits(frac);
    let n = clock::normalized(ts);
    assert(nine.len() == 9);
    assert(n == main + seq!['.'] + nine + seq!['Z']);
    assert(n.take(main.len() as int) =~= main);
    assert forall|i: int| 0 <= i < 9 implies #[trigger] n[main.len() + 1 + i] == (if i < frac.len() {
        frac[i]
    } else {
        '0'
    }) by {
        assert(n[main.len() + 1 + i] == nine[i]);
    }
}

/// A date without a fraction gets one of nine zeros.
pub proof fn law_missing_fraction_is_zero(main: Seq<char>)
    requires
        !main.contains('.'),
        main.len() > 0,
        main.last() != 'Z',
    ensures
        clock::normalized(main) == main + ".000000000Z"@,
        clock::normalized(main + seq!['Z']) == clock::normalized(main),
{
    let ts = main + seq!['Z'];
    let k = main.len() as int;
    assert(text::run_start(main, k, Class::Is('Z')) == k);
    assert(main.take(k) =~= main);
    assert(ts[k] == 'Z' && ts[k - 1] == main.last());
    assert(text::run_start(ts, k, Class::Is('Z')) == k);
    assert(text::run_start(ts, k + 1, Class::Is('Z')) == k);
    assert(ts.take(k) =~= main);
    text::lemma_run_end(main, 0, Class::Not('.'));
    let e = text::run_end(main, 0, Class::Not('.'));
    if e < main.len() {
        assert(main.contains(main[e]));
    }
}

// ---------------------------------------------------------------------------
// Chunks
// ---------------------------------------------------------------------------

proof fn lemma_break_shifts(p: Seq<u8>, r: Seq<u8>, i: int)
    requires
        0 <= i,
    ensures
        http::break_at(r, i) is None ==> http::break_at(p + r, p.len() + i) is None,
        http::break_at(r, i) matches Some(k) ==> http::break_at(p + r, p.len() + i) == Some(p.len() + k),
    decreases r.len() - i,
{
    if i + 1 < r.len() {
        assert((p + r)[p.len() + i] == r[i] && (p + r)[p.len() + i + 1] == r[i + 1]);
        if !(r[i] == 13 && r[i + 1] == 10) {
            lemma_break_shifts(p, r, i + 1);
        }
    }
}

proof fn lemma_chunks_shift(p: Seq<u8>, r: Seq<u8>, i: int, acc: Seq<u8>)
    requires
        0 <= i <= r.len(),
    ensures
        http::unchunked(p + r, p.len() + i, acc) == http::unchunked(r, i, acc),
    decreases r.len() - i,
{
    if i < r.len() {
        lemma_break_shifts(p, r, i);
        http::lemma_break_at(r, i);
        if let Some(k) = http::break_at(r, i) {
            let b = p + r;
            let d = p.len() as int;
            assert(b.subrange(d + i, d + k) =~= r.subrange(i, k));
            if let Some(n) = http::size_in(r.subrange(i, k)) {
                let start = k + 2;
                if n > 0 && r.len() < start + n {
                    assert(b.skip(d + start) =~= r.skip(start));
                } else if n > 0 {
                    assert(b.subrange(d + start, d + start + n) =~= r.subrange(start, start + n));
                    let next = if start + n + 2 <= r.len() {
                        start + n + 2
                    } else {
                        r.len() as int
                    };
                    lemma_chunks_shift(p, r, next, acc + r.subrange(start, start + n));
                }
            }
        }
    }
}

proof fn lemma_first_break(h: Seq<u8>, rest: Seq<u8>, i: int)
    requires
        0 <= i <= h.len(),
        !h.contains(13u8),
    ensures
        http::break_at(h + seq![13u8, 10u8] + rest, i) == Some(h.len() as int),
    decreases h.len() - i,
{
    let b = h + seq![13u8, 10u8] + rest;
    if i < h.len() {
        assert(b[i] == h[i]);
        assert(h.contains(h[i]));
        lemma_first_break(h, rest, i + 1);
    } else {
        assert(b[i] == 13 && b[i + 1] == 10);
    }
}

/// A chunk gives its data, and what follows it is read as if it stood alone.
pub proof fn law_chunk_gives_data(h: Seq<u8>, data: Seq<u8>, rest: Seq<u8>, acc: Seq<u8>)
    requires
        !h.contains(13u8),
        http::size_in(h) == Some(data.len() as int),
        data.len() > 0,
    ensures
        http::unchunked(h + seq![13u8, 10u8] + data + seq![13u8, 10u8] + rest, 0, acc) == http::unchunked(
            rest,
            0,
            acc + data,
        ),
{
    let b = h + seq![13u8, 10u8] + data + seq![13u8, 10u8] + rest;
    let p = h + seq![13u8, 10u8] + data + seq![13u8, 10u8];
    let tail = data + seq![13u8, 10u8] + rest;
    assert(b =~= h + seq![13u8, 10u8] + tail);
    lemma_first_break(h, tail, 0);
    let k = h.len() as int;
    assert(b.subrange(0, k) =~= h);
    assert(b.subrange(k + 2, k + 2 + data.len()) =~= data);
    assert(b =~= p + rest);
    lemma_chunks_shift(p, rest, 0, acc + data);
}

/// A chunk of no bytes is the last one, whatever follows it.
pub proof fn law_empty_chunk_ends(h: Seq<u8>, rest: Seq<u8>, acc: Seq<u8>)
    requires
        !h.contains(13u8),
        http::size_in(h) == Some(0int),
    ensures
        http::unchunked(h + seq![13u8, 10u8] + rest, 0, acc) == Some(acc),
{
    let b = h + seq![13u8, 10u8] + rest;
    lemma_first_break(h, rest, 0);
    assert(b.subrange(0, h.len() as int) =~= h);
}

/// The body of an answer is all that follows the first blank line.
pub proof fn law_body_follows_head(head: Seq<char>, body: Seq<char>)
    requires
        forall|i: int|
            0 <= i < head.len() ==> !#[trigger] text::stands_at(head + "\r\n\r\n"@ + body, i, "\r\n\r\n"@),
    ensures
        http::body_of(head + "\r\n\r\n"@ + body) == Some(body),
{
    reveal_strlit("\r\n\r\n");
    let raw = head + "\r\n\r\n"@ + body;
    let n = head.len() as int;
    assert(raw.subrange(n, n + 4) =~= "\r\n\r\n"@);
    assert(text::stands_at(raw, n, "\r\n\r\n"@));
    text::lemma_find(raw, 0, "\r\n\r\n"@);
    lemma_found_first(raw, 0, n, "\r\n\r\n"@);
    assert(raw.skip(n + 4) =~= body);
}

proof fn lemma_found_first(h: Seq<char>, i: int, k: int, n: Seq<char>)
    requires
        0 <= i <= k <= h.len(),
        text::stands_at(h, k, n),
        forall|j: int| i <= j < k ==> !#[trigger] text::stands_at(h, j, n),
    ensures
        text::find_from(h, i, n) == Some(k),
    decreases k - i,
{
    if i < k {
        assert(!text::stands_at(h, i, n));
        lemma_found_first(h, i + 1, k, n);
    }
}

/// An answer that lists containers gives one for each entry, in order: its name without
/// the slashes in front, running where its state says so.
pub proof fn law_entries_are_containers(raw: Seq<char>, v: Seq<JsonView>, i: int)
    requires
        http::list_in(raw) == Some(v),
        0 <= i < v.len(),
    ensures
        ({
            let c = http::containers_in(raw)[i];
            &&& http::containers_in(raw).len() == v.len()
            &&& c.is_running <==> v[i].text(seq![Step::Key("State"@)]) == Some("running"@)
            &&& v[i].text(seq![Step::Key("Id"@)]) matches Some(id) ==> c.id == id
            &&& v[i].text(seq![Step::Key("Names"@), Step::At(0)]) matches Some(name) ==> {
                let n = name.len() - c.name.len();
                &&& 0 <= n
                &&& name.skip(n) == c.name
                &&& forall|j: int| 0 <= j < n ==> #[trigger] name[j] == '/'
                &&& c.name.len() > 0 ==> c.name[0] != '/'
            }
            &&& v[i].text(seq![Step::Key("Status"@)]) matches Some(status) ==> (c.has_error <==> text::contains(
                text::lowercase(status),
                "exit"@,
            ) && !text::contains(text::lowercase(status), "exit 0"@))
        }),
{
    reveal_strlit("running");
    reveal_strlit("");
    assert("running"@.len() != ""@.len());
    assert(http::containers_in(raw)[i] == http::container_in(v[i]));
    if let Some(name) = v[i].text(seq![Step::Key("Names"@), Step::At(0)]) {
        text::lemma_run_end(name, 0, Class::Is('/'));
    }
}

// ---------------------------------------------------------------------------
// Events
// ---------------------------------------------------------------------------

/// A container runs behind a start and a restart and is then read; behind a death and
/// a kill it stands in error and is not. What is told names it.
pub proof fn law_event_tells_standing(e: Event, known: Seq<Seq<char>>)
    ensures
        ({
            let x = e.effect(known);
            &&& x.is_running <==> e.action == Action::Start || e.action == Action::Restart
            &&& x.has_error <==> e.action == Action::Die || e.action == Action::Kill
            &&& x.follow == x.is_running
            &&& x.container_id == e.id
            &&& x.message.container_id == e.id
            &&& x.message.service_name == e.name
            &&& x.message.is_system_event
            &&& x.message.stream_type == StreamType::System
            &&& x.message.message.len() > e.name.len() + 2
            &&& x.message.message.subrange(1, 1 + e.name.len() as int) == e.name
            &&& x.message.message[0] == '['
            &&& x.message.message.last() == ']'
        }),
{
    reveal_strlit("[");
    reveal_strlit("]");
    reveal_strlit(" - DIE - exit code: ");
    reveal_strlit(" - RESTART]");
    reveal_strlit(" - START]");
    reveal_strlit(" - KILL]");
    reveal_strlit(" - KILL - signal: ");
    let w = e.effect(known).message.message;
    assert(w.subrange(1, 1 + e.name.len() as int) =~= e.name);
}

/// What is told of a death ends with its exit code, of a kill with its signal, if any;
/// a start and a restart are told alike once the container is known.
pub proof fn law_event_words(e: Event, f: Event, known: Seq<Seq<char>>)
    requires
        f == (Event { action: Action::Restart, ..e }),
    ensures
        e.action == Action::Die ==> e.words(known) == "["@ + e.name + " - DIE - exit code: "@ + e.exit_code + "]"@,
        e.action == Action::Kill && e.signal.len() > 0 ==> e.words(known) == "["@ + e.name + " - KILL - signal: "@
            + e.signal + "]"@,
        e.action == Action::Kill && e.signal.len() == 0 ==> e.words(known) == "["@ + e.name + " - KILL]"@,
        e.action == Action::Start && known.contains(e.id) ==> e.words(known) == f.words(known),
        e.action == Action::Start && !known.contains(e.id) ==> e.words(known) == "["@ + e.name + " - START]"@,
        e.action == Action::Start && !known.contains(e.id) ==> e.words(known) != f.words(known),
        f.words(known) == "["@ + e.name + " - RESTART]"@,
{
    reveal_strlit(" - RESTART]");
    reveal_strlit(" - START]");
    assert(("["@ + e.name + " - START]"@).len() != ("["@ + e.name + " - RESTART]"@).len());
}

/// A container that has started is known; nothing known is forgotten, and nothing else
/// becomes known.
pub proof fn law_known_grows(e: Event, known: Seq<Seq<char>>, id: Seq<char>)
    ensures
        e.action == Action::Start ==> e.known_after(known).contains(e.id),
        known.contains(id) ==> e.known_after(known).contains(id),
        e.known_after(known).contains(id) ==> known.contains(id) || e.action == Action::Start && id == e.id,
        known.no_duplicates() ==> e.known_after(known).no_duplicates(),
{
    let after = e.known_after(known);
    if e.action == Action::Start && !known.contains(e.id) {
        assert(after[known.len() as int] == e.id);
        if known.contains(id) {
            let i = choose|i: int| 0 <= i < known.len() && known[i] == id;
            assert(after[i] == id);
        }
    }
}

/// An event is of interest if its action is one of four; it is then read as what it says
/// of its container.
pub proof fn law_event_is_read(v: JsonView, action: Seq<char>)
    requires
        v.text(seq![Step::Key("Action"@)]) == Some(action),
    ensures
        events::event_in(v) is Some <==> action == "start"@ || action == "restart"@ || action == "die"@ || action
            == "kill"@,
        events::event_in(v) matches Some(e) ==> {
            &&& e.action == Action::Start <==> action == "start"@
            &&& e.action == Action::Restart <==> action == "restart"@
            &&& e.action == Action::Die <==> action == "die"@
            &&& e.action == Action::Kill <==> action == "kill"@
            &&& v.text(seq![Step::Key("Actor"@), Step::Key("ID"@)]) matches Some(id) ==> e.id == id
            &&& v.text(seq![Step::Key("Actor"@), Step::Key("Attributes"@), Step::Key("name"@)]) matches Some(n) ==> e.name
                == n
            &&& v.text(seq![Step::Key("Actor"@), Step::Key("Attributes"@), Step::Key("exitCode"@)]) matches Some(c)
                ==> e.exit_code == c
            &&& v.text(seq![Step::Key("Actor"@), Step::Key("Attributes"@), Step::Key("signal"@)]) matches Some(g)
                ==> e.signal == g
            &&& e.time == v.number(seq![Step::Key("time"@)])
            &&& e.nanos == v.number(seq![Step::Key("timeNano"@)])
        },
{
    reveal_strlit("start");
    reveal_strlit("restart");
    reveal_strlit("die");
    reveal_strlit("kill");
    assert("start"@.len() == 5 && "restart"@.len() == 7 && "die"@.len() == 3 && "kill"@.len() == 4);
}

/// An event is dated by its nanoseconds where it has them, else by its seconds; one
/// without seconds has no date.
pub proof fn law_event_date(e: Event)
    ensures
        e.time is None ==> e.effect(seq![]).message.timestamp is None,
        e.time matches Some(t) ==> (e.nanos matches Some(n) ==> e.effect(seq![]).message.timestamp == Some(
            clock::Moment::of(n).text(),
        )),
        e.time matches Some(t) ==> e.nanos is None ==> e.effect(seq![]).message.timestamp == (Event {
            nanos: Some(t * 1_000_000_000),
            ..e
        }).effect(seq![]).message.timestamp,
{
}

// ---------------------------------------------------------------------------
// Streams
// ---------------------------------------------------------------------------

/// A stream begins with its headers and nothing left over.
pub proof fn law_stream_begins(id: Seq<char>, name: Seq<char>, live: bool)
    ensures
        ({
            let s = StreamView::opened(id, name, live);
            &&& s.valid()
            &&& s.phase is Headers && s.need() == Need::Line
            &&& s.stdout.len() == 0 && s.stderr.len() == 0 && s.got.len() == 0
            &&& s.container_id == id && s.service_name == name && s.live == live
            &&& s.framed && !s.chunked
        }),
{
}

/// The headers decide how the rest is read: in chunks if one says so, as plain lines if
/// one speaks of a raw stream, else in frames as they are.
pub proof fn law_headers_decide(s: StreamView, line: Seq<char>)
    requires
        s.phase is Headers,
        line.len() > 0,
        line != "\r\n"@,
        line != "\n"@,
    ensures
        ({
            let (t, none) = s.after_line(Some(line));
            let (end, nothing) = t.after_line(Some("\r\n"@));
            let lower = text::lowercase(line);
            let cuts = text::contains(lower, "transfer-encoding"@) && text::contains(lower, "chunked"@);
            let raw = text::contains(lower, "application/vnd.docker.raw-stream"@);
            &&& none.len() == 0 && nothing.len() == 0
            &&& t.need() == Need::Line
            &&& t.chunked == (s.chunked || cuts)
            &&& t.framed == (s.framed && !raw)
            &&& !t.framed ==> end.phase is Lines && end.need() == Need::Line
            &&& t.framed && !t.chunked ==> end.phase is Plain && end.need() == Need::Bytes(8)
            &&& t.framed && t.chunked && t.chunk_rem == 0 ==> end.phase is ChunkSize && end.need() == Need::Line
        }),
{
}

/// Plain lines are told one by one until the stream ends.
pub proof fn law_plain_lines_are_told(s: StreamView, line: Seq<char>)
    requires
        s.phase is Lines,
    ensures
        line.len() > 0 ==> s.after_line(Some(line)).0 == s && s.after_line(Some(line)).1 == (match wire::log_line(
            line,
            s.container_id,
            s.service_name,
            StreamType::Stdout,
        ) {
            Some(m) => seq![m],
            None => seq![],
        }),
        s.after_line(Some(seq![])).0.need() == Need::Nothing,
        s.after_line(Some(seq![])).1.len() == 0,
        s.after_line(None).0.need() == Need::Nothing,
{
}

/// Eight bytes that are no head of a frame are the start of a plain line: they are told
/// with what follows on it, and what comes then is read as plain lines.
pub proof fn law_no_head_is_a_line(s: StreamView, bytes: Seq<u8>, rest: Seq<char>)
    requires
        s.phase is Plain,
        !s.in_payload,
        bytes.len() == 8,
        bytes[1] != 0 || bytes[2] != 0 || bytes[3] != 0,
        s.live || s.stdout.len() == 0 && s.stderr.len() == 0,
    ensures
        ({
            let (t, none) = s.after_bytes(Some(bytes));
            let (u, msgs) = t.after_line(Some(rest));
            &&& none.len() == 0
            &&& t.need() == Need::Line
            &&& u.phase is Lines
            &&& wire::log_line(
                wire::lossy_text(bytes) + rest,
                s.container_id,
                s.service_name,
                StreamType::Stdout,
            ) matches Some(m) ==> msgs == seq![m]
        }),
{
    let t = s.after_bytes(Some(bytes)).0;
    let line = wire::lossy_text(bytes) + rest;
    assert(t.flushed_msgs() =~= Seq::<MsgView>::empty());
    if let Some(m) = wire::log_line(line, s.container_id, s.service_name, StreamType::Stdout) {
        assert(seq![m] + t.flushed_msgs() =~= seq![m]);
    }
}

proof fn lemma_head_reads(st: StreamType, n: int)
    requires
        0 <= n <= u32::MAX,
    ensures
        stream::payload_size(stream::frame_head(st, n)) == n,
        stream::is_head(stream::frame_head(st, n)),
        st is Stdout || st is Stderr ==> stream::frame_stream(stream::frame_head(st, n)) == st,
{
}

proof fn lemma_head_in_chunk(s: StreamView, st: StreamType, n: int)
    requires
        s.phase is ChunkData,
        s.chunked,
        !s.in_payload,
        s.want == 8,
        s.got.len() == 0,
        s.chunk_rem == n + 8,
        0 < n <= u32::MAX,
    ensures
        s.after_bytes(Some(stream::frame_head(st, n))) == (
            (StreamView {
                in_payload: true,
                frame: stream::frame_head(st, n),
                want: n,
                got: seq![],
                chunk_rem: n,
                ..s
            }),
            Seq::<MsgView>::empty(),
        ),
{
    let h = stream::frame_head(st, n);
    lemma_head_reads(st, n);
    assert(s.got + h =~= h);
}

proof fn lemma_data_in_chunk(s: StreamView, data: Seq<u8>)
    requires
        s.phase is ChunkData,
        s.got.len() == 0,
        s.want == data.len(),
        s.chunk_rem == data.len(),
    ensures
        s.after_bytes(Some(data)) == (
            (StreamView { got: data, chunk_rem: 0, phase: Phase::ChunkEnd, ..s }),
            Seq::<MsgView>::empty(),
        ),
{
    assert(s.got + data =~= data);
}

/// A frame that comes in a chunk of its own tells the same lines as one that is not
/// cut into chunks.
pub proof fn law_chunked_frame_reads_back(s: StreamView, size: Seq<char>, st: StreamType, data: Seq<u8>, end: Seq<u8>)
    requires
        s.valid(),
        s.phase is ChunkSize,
        !s.in_payload,
        s.got.len() == 0,
        st is Stdout || st is Stderr,
        0 < data.len() <= u32::MAX,
        data.len() + 8 <= usize::MAX,
        text::trimmed(size).len() > 0,
        size.len() > 0,
        http::chunk_size(size) == Some(data.len() as int + 8),
    ensures
        ({
            let n = data.len() as int;
            let (sized, m1) = s.after_line(Some(size));
            let (headed, m2) = sized.after_bytes(Some(stream::frame_head(st, n)));
            let (filled, m3) = headed.after_bytes(Some(data));
            let (read, m4) = filled.after_bytes(Some(end));
            let before = if st is Stderr {
                s.stderr
            } else {
                s.stdout
            };
            &&& m1.len() == 0 && m2.len() == 0 && m3.len() == 0
            &&& sized.need() == Need::Bytes(8)
            &&& headed.need() == Need::Bytes(n as usize)
            &&& filled.need() == Need::Bytes(2)
            &&& read.need() == Need::Line
            &&& m4 == wire::line_msgs(wire::full_lines(before + data), s.container_id, s.service_name, st)
            &&& read.stderr == (if st is Stderr {
                wire::remainder(before + data)
            } else {
                s.stderr
            })
            &&& read.stdout == (if st is Stderr {
                s.stdout
            } else {
                wire::remainder(before + data)
            })
        }),
{
    let n = data.len() as int;
    lemma_head_reads(st, n);
    let sized = s.after_line(Some(size)).0;
    assert(sized == StreamView { chunk_rem: n + 8, phase: Phase::ChunkData, ..s });
    lemma_head_in_chunk(sized, st, n);
    let headed = sized.after_bytes(Some(stream::frame_head(st, n))).0;
    lemma_data_in_chunk(headed, data);
    let filled = headed.after_bytes(Some(data)).0;
    assert(filled.after_bytes(Some(end)) == filled.payload_taken(data));
}

/// Bytes of a chunk that do not complete what is wanted are kept, in order, and nothing
/// is told of them yet.
pub proof fn law_chunk_bytes_add_up(s: StreamView, bytes: Seq<u8>)
    requires
        s.valid(),
        s.phase is ChunkData,
        s.got.len() + bytes.len() < s.want,
        bytes.len() < s.chunk_rem,
    ensures
        ({
            let (t, msgs) = s.after_bytes(Some(bytes));
            &&& msgs.len() == 0
            &&& t.got == s.got + bytes
            &&& t.chunk_rem == s.chunk_rem - bytes.len()
            &&& t.want == s.want
            &&& t.phase is ChunkData
            &&& t.stdout == s.stdout && t.stderr == s.stderr
        }),
{
}

/// When a stream breaks off, what is left of its lines is told, that of the output
/// before that of the errors; of a live stream nothing is told.
pub proof fn law_broken_stream_tells_rest(s: StreamView)
    requires
        s.phase is Plain || s.phase is ChunkData,
    ensures
        ({
            let (t, msgs) = s.after_bytes(None);
            &&& t.need() == Need::Nothing
            &&& s.live ==> msgs.len() == 0
            &&& !s.live ==> msgs == wire::flushed(s.stdout, s.container_id, s.service_name, StreamType::Stdout)
                + wire::flushed(s.stderr, s.container_id, s.service_name, StreamType::Stderr)
        }),
{
}

} // verus!
