//! What the engine is asked, and the list of containers that it answers with.

use super::json::{self, first_text_at, read_list, read_list_bytes, text_at, JsonView, Step};
use super::wire::{self, lossy, utf8_text};
use crate::numbers::{self, decimal_of, parse_unsigned};
use crate::text::{self, chars_of, find_text, pieces, same_str, skip_start, str_has, string_of, strip, to_lower, Class};
use vstd::prelude::*;
use vstd::slice::slice_subrange;
use vstd::utf8::*;

verus! {

/// A container.
#[derive(Debug, Clone)]
pub struct ContainerInfo {
    pub id: String,
    pub name: String,
    pub is_running: bool,
    pub has_error: bool,
}

/// The places of the running containers, in order.
pub fn running(containers: &[ContainerInfo]) -> (r: Vec<usize>)
    ensures
        forall|j: int, k: int| 0 <= j < k < r@.len() ==> #[trigger] r@[j] < #[trigger] r@[k],
        forall|j: int|
            0 <= j < r@.len() ==> (#[trigger] r@[j]) < containers@.len() && containers@[r@[j] as int].is_running,
        forall|i: int|
            0 <= i < containers@.len() && (#[trigger] containers@[i]).is_running ==> r@.contains(i as usize),
{
    let mut r: Vec<usize> = Vec::new();
    let mut i: usize = 0;
    while i < containers.len()
        invariant
            i <= containers@.len(),
            forall|j: int, k: int| 0 <= j < k < r@.len() ==> #[trigger] r@[j] < #[trigger] r@[k],
            forall|j: int| 0 <= j < r@.len() ==> (#[trigger] r@[j]) < i && containers@[r@[j] as int].is_running,
            forall|k: int| 0 <= k < i && (#[trigger] containers@[k]).is_running ==> r@.contains(k as usize),
        decreases containers@.len() - i,
    {
        let ghost before = r@;
        if containers[i].is_running {
            r.push(i);
            assert(r@[before.len() as int] == i);
        }
        assert forall|k: int| 0 <= k < i + 1 && (#[trigger] containers@[k]).is_running implies r@.contains(
            k as usize,
        ) by {
            if k < i {
                let j = choose|j: int| 0 <= j < before.len() && before[j] == k as usize;
                assert(before.contains(k as usize));
                assert(r@[j] == k as usize);
            }
        }
        i += 1;
    }
    r
}

/// What is known of a container.
#[verifier::ext_equal]
pub struct ContainerView {
    pub id: Seq<char>,
    pub name: Seq<char>,
    pub is_running: bool,
    pub has_error: bool,
}

impl View for ContainerInfo {
    type V = ContainerView;

    open spec fn view(&self) -> ContainerView {
        ContainerView {
            id: self.id@,
            name: self.name@,
            is_running: self.is_running,
            has_error: self.has_error,
        }
    }
}

pub open spec fn containers_view(v: Seq<ContainerInfo>) -> Seq<ContainerView> {
    v.map_values(|c: ContainerInfo| c@)
}

// ---------------------------------------------------------------------------
// Requests
// ---------------------------------------------------------------------------

/// The request for the list of all containers.
pub fn list_request() -> (r: String)
    ensures
        r@ == "GET /containers/json?all=1 HTTP/1.1\r\nHost: localhost\r\nConnection: close\r\n\r\n"@,
{
    "GET /containers/json?all=1 HTTP/1.1\r\nHost: localhost\r\nConnection: close\r\n\r\n".to_owned()
}

/// The request for the events of containers.
pub fn events_request() -> (r: String)
    ensures
        r@
            == "GET /events?filters=%7B%22type%22%3A%5B%22container%22%5D%7D HTTP/1.1\r\nHost: localhost\r\n\r\n"@,
{
    "GET /events?filters=%7B%22type%22%3A%5B%22container%22%5D%7D HTTP/1.1\r\nHost: localhost\r\n\r\n".to_owned()
}

/// The request for the last `tail` lines of a container.
pub fn tail_request(container_id: &str, tail: usize) -> (r: String)
    ensures
        r@ == "GET /containers/"@ + container_id@ + "/logs?follow=0&stdout=1&stderr=1&timestamps=1&tail="@
            + numbers::decimal(tail as nat) + " HTTP/1.1\r\nHost: localhost\r\nConnection: close\r\n\r\n"@,
{
    let mut v = chars_of("GET /containers/");
    let mut id = chars_of(container_id);
    let mut mid = chars_of("/logs?follow=0&stdout=1&stderr=1&timestamps=1&tail=");
    let mut n = decimal_of(tail as u64);
    let mut end = chars_of(" HTTP/1.1\r\nHost: localhost\r\nConnection: close\r\n\r\n");
    v.append(&mut id);
    v.append(&mut mid);
    v.append(&mut n);
    v.append(&mut end);
    string_of(v.as_slice())
}

/// The request for the lines that a container writes from now on.
pub fn live_request(container_id: &str) -> (r: String)
    ensures
        r@ == "GET /containers/"@ + container_id@ + "/logs?follow=1&stdout=1&stderr=1&timestamps=1&tail=0"@
            + " HTTP/1.1\r\nHost: localhost\r\nUpgrade: tcp\r\nConnection: Upgrade\r\n\r\n"@,
{
    let mut v = chars_of("GET /containers/");
    let mut id = chars_of(container_id);
    let mut mid = chars_of("/logs?follow=1&stdout=1&stderr=1&timestamps=1&tail=0");
    let mut end = chars_of(" HTTP/1.1\r\nHost: localhost\r\nUpgrade: tcp\r\nConnection: Upgrade\r\n\r\n");
    v.append(&mut id);
    v.append(&mut mid);
    v.append(&mut end);
    string_of(v.as_slice())
}

// ---------------------------------------------------------------------------
// The body of an answer
// ---------------------------------------------------------------------------

/// The body of an answer: what follows the first blank line.
pub open spec fn body_of(raw: Seq<char>) -> Option<Seq<char>> {
    match text::find(raw, "\r\n\r\n"@) {
        Some(k) => Some(raw.skip(k + 4)),
        None => None,
    }
}

/// The place of the first line break from `i` on.
pub open spec fn break_at(b: Seq<u8>, i: int) -> Option<int>
    decreases b.len() - i,
{
    if !(0 <= i && i + 1 < b.len()) {
        None
    } else if b[i] == 13 && b[i + 1] == 10 {
        Some(i)
    } else {
        break_at(b, i + 1)
    }
}

/// A size in hexadecimal, with an extension behind a semicolon or without.
pub open spec fn chunk_size(s: Seq<char>) -> Option<int> {
    numbers::read_unsigned(text::split(text::trimmed(s), ';')[0], 16, usize::MAX as int)
}

/// The size that stands in the bytes.
pub open spec fn size_in(b: Seq<u8>) -> Option<int> {
    if valid_utf8(b) {
        chunk_size(decode_utf8(b))
    } else {
        None
    }
}

pub proof fn lemma_break_at(b: Seq<u8>, i: int)
    requires
        0 <= i,
    ensures
        break_at(b, i) matches Some(k) ==> i <= k && k + 2 <= b.len(),
    decreases b.len() - i,
{
    if i + 1 < b.len() && !(b[i] == 13 && b[i + 1] == 10) {
        lemma_break_at(b, i + 1);
    }
}

/// The data of the chunks from `i` on, behind those already read. A chunk that is
/// cut short is taken as far as it goes.
pub open spec fn unchunked(b: Seq<u8>, i: int, acc: Seq<u8>) -> Option<Seq<u8>>
    decreases b.len() - i,
{
    if !(0 <= i < b.len()) {
        Some(acc)
    } else {
        match break_at(b, i) {
            None => None,
            Some(k) => match size_in(b.subrange(i, k)) {
                None => None,
                Some(n) => {
                    let start = k + 2;
                    if n <= 0 {
                        Some(acc)
                    } else if b.len() < start + n {
                        Some(acc + b.skip(start))
                    } else {
                        let data = b.subrange(start, start + n);
                        let next = if start + n + 2 <= b.len() {
                            start + n + 2
                        } else {
                            b.len() as int
                        };
                        proof {
                            lemma_break_at(b, i);
                        }
                        unchunked(b, next, acc + data)
                    }
                },
            },
        }
    }
}

/// The JSON list in an answer, as it stands or in chunks.
pub open spec fn list_in(raw: Seq<char>) -> Option<Seq<JsonView>> {
    match body_of(raw) {
        None => None,
        Some(body) => match json::json_list(body) {
            Some(v) => Some(v),
            None => match unchunked(encode_utf8(body), 0, seq![]) {
                Some(b) => json::json_list_bytes(b),
                None => None,
            },
        },
    }
}

fn find_break(b: &[u8], from: usize) -> (r: Option<usize>)
    ensures
        r matches Some(k) ==> break_at(b@, from as int) == Some(k as int) && from <= k && k + 2 <= b@.len(),
        r is None ==> break_at(b@, from as int) is None,
{
    let mut i: usize = from;
    while i < b.len() && b.len() - i >= 2
        invariant
            from <= i,
            break_at(b@, from as int) == break_at(b@, i as int),
        decreases b@.len() - i,
    {
        if b[i] == 13 && b[i + 1] == 10 {
            return Some(i);
        }
        i += 1;
    }
    None
}

/// Reads the size of a chunk.
pub fn parse_chunk_size(s: &str) -> (r: Option<usize>)
    ensures
        r matches Some(n) ==> chunk_size(s@) == Some(n as int),
        r is None ==> chunk_size(s@) is None,
{
    let v = chars_of(s);
    let parts = pieces(strip(v.as_slice(), Class::Space), ';');
    assert(text::views(parts@)[0] == parts@[0]@);
    match parse_unsigned(parts[0], 16, usize::MAX as u64) {
        Some(n) => Some(n as usize),
        None => None,
    }
}

/// Joins the chunks of a body.
pub fn unchunk(b: &[u8]) -> (r: Option<Vec<u8>>)
    ensures
        r matches Some(v) ==> unchunked(b@, 0, seq![]) == Some(v@),
        r is None ==> unchunked(b@, 0, seq![]) is None,
{
    let mut out: Vec<u8> = Vec::new();
    let mut i: usize = 0;
    while i < b.len()
        invariant
            i <= b@.len(),
            unchunked(b@, 0, seq![]) == unchunked(b@, i as int, out@),
        decreases b@.len() - i,
    {
        let k: usize = match find_break(b, i) {
            Some(k) => k,
            None => return None,
        };
        let line = slice_subrange(b, i, k);
        assert(line@ == b@.subrange(i as int, k as int));
        let size: usize = match utf8_text(line) {
            Some(s) => match parse_chunk_size(s.as_str()) {
                Some(n) => n,
                None => return None,
            },
            None => return None,
        };
        if size == 0 {
            return Some(out);
        }
        let start: usize = k + 2;
        if b.len() - start < size {
            let tail = slice_subrange(b, start, b.len());
            let ghost before = out@;
            out.extend_from_slice(tail);
            assert(out@ =~= before + b@.skip(start as int));
            return Some(out);
        }
        let end: usize = start + size;
        let data = slice_subrange(b, start, end);
        let ghost before = out@;
        out.extend_from_slice(data);
        assert(out@ =~= before + b@.subrange(start as int, end as int));
        i = if b.len() - end >= 2 {
            end + 2
        } else {
            b.len()
        };
    }
    Some(out)
}

/// Reads the JSON list in an answer.
pub fn parse_json_body(raw_http: &str) -> (r: Option<Vec<serde_json::Value>>)
    ensures
        json::opt_jsons(r) == list_in(raw_http@),
{
    let v = chars_of(raw_http);
    let mark = chars_of("\r\n\r\n");
    proof {
        reveal_strlit("\r\n\r\n");
    }
    let len: usize = v.len();
    match find_text(v.as_slice(), mark.as_slice()) {
        None => None,
        Some(k) => {
            assert(mark@.len() == 4);
            let body = string_of(slice_subrange(v.as_slice(), k + 4, len));
            assert(body@ =~= raw_http@.skip(k + 4));
            match read_list(body.as_str()) {
                Some(list) => Some(list),
                None => match unchunk(body.as_str().as_bytes()) {
                    Some(b) => read_list_bytes(b.as_slice()),
                    None => None,
                },
            }
        },
    }
}

// ---------------------------------------------------------------------------
// Containers
// ---------------------------------------------------------------------------

pub open spec fn or_else(o: Option<Seq<char>>, otherwise: Seq<char>) -> Seq<char> {
    match o {
        Some(s) => s,
        None => otherwise,
    }
}

/// The container that an entry of the list describes.
pub open spec fn container_in(v: JsonView) -> ContainerView {
    let name = or_else(v.text(seq![Step::Key("Names"@), Step::At(0)]), "unknown"@);
    let status = text::lowercase(or_else(v.text(seq![Step::Key("Status"@)]), ""@));
    ContainerView {
        id: or_else(v.text(seq![Step::Key("Id"@)]), ""@),
        name: text::trim_start(name, Class::Is('/')),
        is_running: or_else(v.text(seq![Step::Key("State"@)]), ""@) == "running"@,
        has_error: text::contains(status, "exit"@) && !text::contains(status, "exit 0"@),
    }
}

/// The containers that an answer lists; none if it is no list.
pub open spec fn containers_in(raw: Seq<char>) -> Seq<ContainerView> {
    match list_in(raw) {
        Some(v) => v.map_values(|x: JsonView| container_in(x)),
        None => seq![],
    }
}

pub(crate) fn text_or(o: Option<String>, otherwise: &str) -> (r: String)
    ensures
        r@ == or_else(json::opt_text(o), otherwise@),
{
    match o {
        Some(s) => s,
        None => otherwise.to_owned(),
    }
}

/// Reads an entry of the list.
pub fn read_container(v: &serde_json::Value) -> (r: ContainerInfo)
    ensures
        r@ == container_in(json::json_view(*v)),
{
    let name = chars_of(text_or(first_text_at(v, "Names"), "unknown").as_str());
    let state = text_or(text_at(v, "State"), "");
    let status = to_lower(text_or(text_at(v, "Status"), "").as_str());
    ContainerInfo {
        id: text_or(text_at(v, "Id"), ""),
        name: string_of(skip_start(name.as_slice(), Class::Is('/'))),
        is_running: same_str(state.as_str(), "running"),
        has_error: str_has(status.as_str(), "exit") && !str_has(status.as_str(), "exit 0"),
    }
}

/// Reads the answer to the request for the list of containers.
pub fn read_containers(response: &[u8]) -> (r: Vec<ContainerInfo>)
    ensures
        containers_view(r@) == containers_in(wire::lossy_text(response@)),
{
    let raw = lossy(response);
    let list = match parse_json_body(raw.as_str()) {
        Some(v) => v,
        None => {
            let none: Vec<ContainerInfo> = Vec::new();
            assert(containers_view(none@) =~= seq![]);
            return none;
        },
    };
    let ghost views = json::jsons_view(list@);
    let mut out: Vec<ContainerInfo> = Vec::new();
    let mut i: usize = 0;
    while i < list.len()
        invariant
            i <= list@.len(),
            views == json::jsons_view(list@),
            containers_view(out@) == views.map_values(|x: JsonView| container_in(x)).take(i as int),
        decreases list@.len() - i,
    {
        assert(views[i as int] == json::json_view(list@[i as int]));
        let ghost before = containers_view(out@);
        let c = read_container(&list[i]);
        let ghost view = c@;
        out.push(c);
        assert(containers_view(out@) =~= before.push(view));
        i += 1;
        assert(containers_view(out@) =~= views.map_values(|x: JsonView| container_in(x)).take(i as int));
    }
    assert(containers_view(out@) =~= views.map_values(|x: JsonView| container_in(x)));
    out
}

} // verus!
