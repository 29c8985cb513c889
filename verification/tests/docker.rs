//! What the engine sends and is asked.

use ocklog::docker::clock::unix_nanos_to_normalized_rfc3339;
use ocklog::docker::events::{event_in_range, on_event, on_event_line, Effect, Reply};
use ocklog::docker::http::{
    events_request, list_request, live_request, parse_chunk_size, parse_json_body, read_containers, running,
    tail_request, unchunk,
};
use ocklog::docker::stream::{LogStream, Need};
use ocklog::docker::wire::{drain_line_buffer, extract_docker_timestamp, flush_line_buffer, parse_log_line};
use ocklog::docker::{normalize_ts, ContainerInfo, DockerClient, DockerLogMsg, StreamType};

fn texts(v: &Vec<DockerLogMsg>) -> Vec<String> {
    v.iter().map(|m| m.message.clone()).collect()
}

fn frame(stream: u8, text: &str) -> Vec<u8> {
    let n = text.len() as u32;
    let mut v = vec![stream, 0, 0, 0];
    v.extend_from_slice(&n.to_be_bytes());
    v.extend_from_slice(text.as_bytes());
    v
}

/// Feeds a stream from bytes until it wants no more or the bytes run out.
fn run_stream(live: bool, input: &[u8]) -> Vec<DockerLogMsg> {
    let mut s = LogStream::new("id", "web", live);
    let mut at = 0;
    let mut out = Vec::new();
    loop {
        match s.need() {
            Need::Nothing => return out,
            Need::Line => {
                let rest = &input[at..];
                let end = match rest.iter().position(|b| *b == b'\n') {
                    Some(k) => k + 1,
                    None => rest.len(),
                };
                let line = String::from_utf8(rest[..end].to_vec()).ok();
                at += end;
                out.extend(s.on_line(line));
            }
            Need::Bytes(n) => {
                if input.len() - at < n {
                    at = input.len();
                    out.extend(s.on_bytes(None));
                } else {
                    let b = input[at..at + n].to_vec();
                    at += n;
                    out.extend(s.on_bytes(Some(b)));
                }
            }
        }
    }
}

#[test]
fn requests_are_spelled_out() {
    assert!(list_request().starts_with("GET /containers/json?all=1 HTTP/1.1\r\n"));
    assert!(events_request().starts_with("GET /events?filters=%7B%22type%22"));
    assert_eq!(
        tail_request("abc", 100),
        "GET /containers/abc/logs?follow=0&stdout=1&stderr=1&timestamps=1&tail=100 HTTP/1.1\r\nHost: localhost\r\nConnection: close\r\n\r\n"
    );
    assert_eq!(
        live_request("abc"),
        "GET /containers/abc/logs?follow=1&stdout=1&stderr=1&timestamps=1&tail=0 HTTP/1.1\r\nHost: localhost\r\nUpgrade: tcp\r\nConnection: Upgrade\r\n\r\n"
    );
    assert_eq!(DockerClient::new().socket_path(), "/var/run/docker.sock");
}

#[test]
fn dates_get_nine_digits() {
    assert_eq!(normalize_ts("2024-01-15T10:30:45Z"), "2024-01-15T10:30:45.000000000Z");
    assert_eq!(normalize_ts("2024-01-15T10:30:45.12Z"), "2024-01-15T10:30:45.120000000Z");
    assert_eq!(normalize_ts("2024-01-15T10:30:45.1234567891Z"), "2024-01-15T10:30:45.123456789Z");
    let once = normalize_ts("2024-01-15T10:30:45.12Z");
    assert_eq!(normalize_ts(&once), once);
}

#[test]
fn clock_times_become_dates() {
    assert_eq!(unix_nanos_to_normalized_rfc3339(0), "1970-01-01T00:00:00.000000000Z");
    assert_eq!(
        unix_nanos_to_normalized_rfc3339(1705314645123456789),
        "2024-01-15T10:30:45.123456789Z"
    );
    assert_eq!(
        ocklog::query::parse_timestamp_secs(&unix_nanos_to_normalized_rfc3339(1705314645123456789)),
        Some(1705314645)
    );
}

#[test]
fn later_times_are_later_texts() {
    let times: [i64; 12] = [
        0,
        1,
        999_999_999,
        1_000_000_000,
        59_999_999_999,
        86_399_999_999_999,
        86_400_000_000_000,
        951_782_399_999_999_999,
        951_782_400_000_000_000,
        1_704_067_199_999_999_999,
        1_704_067_200_000_000_000,
        i64::MAX,
    ];
    let texts: Vec<String> = times.iter().map(|t| unix_nanos_to_normalized_rfc3339(*t)).collect();
    assert_eq!(texts[7], "2000-02-28T23:59:59.999999999Z");
    assert_eq!(texts[8], "2000-02-29T00:00:00.000000000Z");
    assert_eq!(texts[9], "2023-12-31T23:59:59.999999999Z");
    assert_eq!(texts[10], "2024-01-01T00:00:00.000000000Z");
    assert_eq!(texts[11], "2262-04-11T23:47:16.854775807Z");
    for i in 1..texts.len() {
        assert!(texts[i - 1] < texts[i]);
    }
    for t in &texts {
        assert_eq!(t.len(), 30);
        assert_eq!(&normalize_ts(t), t);
    }
    assert_eq!(unix_nanos_to_normalized_rfc3339(i64::MIN).len(), 30);
}

#[test]
fn running_containers_are_chosen() {
    let container = |id: &str, is_running: bool| ContainerInfo {
        id: id.to_string(),
        name: id.to_string(),
        is_running,
        has_error: false,
    };
    let all = vec![container("a", true), container("b", false), container("c", true)];
    assert_eq!(running(&all), vec![0, 2]);
    assert!(running(&all[1..2]).is_empty());
}

#[test]
fn dates_are_taken_off_lines() {
    let (ts, rest) = extract_docker_timestamp("2024-01-15T10:30:45.5Z hello world");
    assert_eq!(ts, Some("2024-01-15T10:30:45.500000000Z".to_string()));
    assert_eq!(rest, "hello world");
    let (ts, rest) = extract_docker_timestamp("no date here");
    assert_eq!(ts, None);
    assert_eq!(rest, "no date here");
}

#[test]
fn blank_lines_make_no_message() {
    assert!(parse_log_line("  \r\n", "id", "web", StreamType::Stdout).is_none());
    let m = parse_log_line("hello\r\n", "id", "web", StreamType::Stderr).unwrap();
    assert_eq!(m.message, "hello");
    assert_eq!(m.stream_type, StreamType::Stderr);
    assert_eq!(m.service_name, "web");
    assert!(!m.is_system_event);
}

#[test]
fn lines_are_put_together_from_pieces() {
    let mut whole = b"one\ntwo\nthr".to_vec();
    let mut out: Vec<DockerLogMsg> = Vec::new();
    drain_line_buffer(&mut whole, "id", "web", StreamType::Stdout, &mut out);
    assert_eq!(texts(&out), vec!["one".to_string(), "two".to_string()]);
    assert_eq!(whole, b"thr".to_vec());
    let mut buf = b"on".to_vec();
    let mut pieces: Vec<DockerLogMsg> = Vec::new();
    drain_line_buffer(&mut buf, "id", "web", StreamType::Stdout, &mut pieces);
    buf.extend_from_slice(b"e\ntwo\nthr");
    drain_line_buffer(&mut buf, "id", "web", StreamType::Stdout, &mut pieces);
    assert_eq!(texts(&pieces), texts(&out));
    flush_line_buffer(&mut buf, "id", "web", StreamType::Stdout, &mut pieces);
    assert_eq!(pieces[2].message, "thr");
    assert!(buf.is_empty());
}

#[test]
fn messages_come_out_the_same_wherever_the_bytes_are_cut() {
    let bytes = b"2024-01-15T10:30:45.5Z one\n  \ntwo\r\nthr";
    let mut whole = bytes.to_vec();
    let mut out: Vec<DockerLogMsg> = Vec::new();
    drain_line_buffer(&mut whole, "id", "web", StreamType::Stderr, &mut out);
    assert_eq!(texts(&out), vec!["one".to_string(), "two".to_string()]);
    for cut in 0..bytes.len() + 1 {
        let mut buf = bytes[..cut].to_vec();
        let mut pieces: Vec<DockerLogMsg> = Vec::new();
        drain_line_buffer(&mut buf, "id", "web", StreamType::Stderr, &mut pieces);
        buf.extend_from_slice(&bytes[cut..]);
        drain_line_buffer(&mut buf, "id", "web", StreamType::Stderr, &mut pieces);
        assert_eq!(texts(&pieces), texts(&out));
        assert_eq!(pieces[0].timestamp, Some("2024-01-15T10:30:45.500000000Z".to_string()));
        assert_eq!(pieces[1].timestamp, None);
        assert_eq!(buf, whole);
    }
}

#[test]
fn bytes_that_are_no_text_stand_for_themselves_as_marks() {
    let mut buf = vec![b'a', 0xff, b'b', b'\n'];
    let mut out: Vec<DockerLogMsg> = Vec::new();
    drain_line_buffer(&mut buf, "id", "web", StreamType::Stdout, &mut out);
    assert_eq!(out[0].message, "a\u{fffd}b");
}

#[test]
fn chunks_are_put_together() {
    assert_eq!(parse_chunk_size("1a; ext\r\n"), Some(26));
    assert_eq!(parse_chunk_size("zz"), None);
    assert_eq!(unchunk(b"3\r\nabc\r\n2\r\nde\r\n0\r\n\r\n"), Some(b"abcde".to_vec()));
    assert_eq!(unchunk(b"5\r\nab"), Some(b"ab".to_vec()));
    assert_eq!(unchunk(b"zz\r\nab"), None);
    assert_eq!(unchunk(b"\xff\r\nab"), None);
}

#[test]
fn lists_of_containers_are_read() {
    let body = r#"[{"Id":"c1","Names":["/web"],"State":"running","Status":"Up 2 minutes"},{"Id":"c2","Names":["/db"],"State":"exited","Status":"Exited (1) 3 minutes ago"},{}]"#;
    let answer = format!("HTTP/1.1 200 OK\r\nContent-Type: application/json\r\n\r\n{}", body);
    let list = read_containers(answer.as_bytes());
    assert_eq!(list.len(), 3);
    assert_eq!(list[0].id, "c1");
    assert_eq!(list[0].name, "web");
    assert!(list[0].is_running);
    assert!(!list[0].has_error);
    assert_eq!(list[1].name, "db");
    assert!(!list[1].is_running);
    assert!(list[1].has_error);
    assert_eq!(list[2].name, "unknown");
    assert_eq!(list[2].id, "");
    let chunked = format!("HTTP/1.1 200 OK\r\nTransfer-Encoding: chunked\r\n\r\n{:x}\r\n{}\r\n0\r\n\r\n", body.len(), body);
    assert_eq!(read_containers(chunked.as_bytes()).len(), 3);
    assert!(parse_json_body("no headers").is_none());
    assert!(read_containers(b"HTTP/1.1 200 OK\r\n\r\nnot json").is_empty());
}

#[test]
fn framed_streams_are_read() {
    let mut input = b"HTTP/1.1 200 OK\r\n\r\n".to_vec();
    input.extend(frame(1, "2024-01-15T10:30:45Z out one\n"));
    input.extend(frame(2, "err one\n"));
    input.extend(frame(1, "tail"));
    let msgs = run_stream(false, &input);
    assert_eq!(texts(&msgs), vec!["out one".to_string(), "err one".to_string(), "tail".to_string()]);
    assert_eq!(msgs[0].timestamp, Some("2024-01-15T10:30:45.000000000Z".to_string()));
    assert_eq!(msgs[1].stream_type, StreamType::Stderr);
    let msgs = run_stream(true, &input);
    assert_eq!(texts(&msgs), vec!["out one".to_string(), "err one".to_string()]);
}

#[test]
fn chunked_streams_are_read() {
    let data = frame(1, "hello\n");
    let mut input = b"HTTP/1.1 200 OK\r\nTransfer-Encoding: chunked\r\n\r\n".to_vec();
    input.extend(b"5\r\n");
    input.extend(&data[..5]);
    input.extend(b"\r\n");
    input.extend(format!("{:x}\r\n", data.len() - 5).as_bytes());
    input.extend(&data[5..]);
    input.extend(b"\r\n0\r\n\r\n");
    assert_eq!(texts(&run_stream(false, &input)), vec!["hello".to_string()]);
}

#[test]
fn plain_streams_are_read() {
    let mut input = b"HTTP/1.1 200 OK\r\nContent-Type: application/vnd.docker.raw-stream\r\n\r\n".to_vec();
    input.extend(b"one\ntwo\n");
    assert_eq!(texts(&run_stream(false, &input)), vec!["one".to_string(), "two".to_string()]);
    let mut input = b"HTTP/1.1 200 OK\r\n\r\n".to_vec();
    input.extend(b"no frames here\nnor here\n");
    assert_eq!(
        texts(&run_stream(false, &input)),
        vec!["no frames here".to_string(), "nor here".to_string()]
    );
}

#[test]
fn streams_without_an_answer_end() {
    assert!(run_stream(true, b"").is_empty());
    assert!(run_stream(false, b"").is_empty());
}

fn effect(line: &str, known: &mut Vec<String>) -> Effect {
    match on_event_line(line, known) {
        Reply::Effect(e) => e,
        _ => panic!("no effect"),
    }
}

#[test]
fn events_have_effects() {
    let mut known: Vec<String> = Vec::new();
    let start = r#"{"Action":"start","Actor":{"ID":"c1","Attributes":{"name":"web"}},"time":1705314645,"timeNano":1705314645123456789}"#;
    let e = effect(start, &mut known);
    assert_eq!(e.message.message, "[web - START]");
    assert_eq!(e.message.timestamp, Some("2024-01-15T10:30:45.123456789Z".to_string()));
    assert_eq!(e.container_id, "c1");
    assert!(e.is_running && !e.has_error && e.follow);
    assert!(e.message.is_system_event);
    assert_eq!(known, vec!["c1".to_string()]);
    let e = effect(start, &mut known);
    assert_eq!(e.message.message, "[web - RESTART]");
    assert_eq!(known.len(), 1);
    let die = r#"{"Action":"die","Actor":{"ID":"c1","Attributes":{"name":"web","exitCode":"137"}},"time":5}"#;
    let e = effect(die, &mut known);
    assert_eq!(e.message.message, "[web - DIE - exit code: 137]");
    assert_eq!(e.message.timestamp, Some("1970-01-01T00:00:05.000000000Z".to_string()));
    assert!(!e.is_running && e.has_error && !e.follow);
    let kill = r#"{"Action":"kill","Actor":{"ID":"c1","Attributes":{"name":"web","signal":"9"}}}"#;
    let e = effect(kill, &mut known);
    assert_eq!(e.message.message, "[web - KILL - signal: 9]");
    assert_eq!(e.message.timestamp, None);
    let restart = r#"{"Action":"restart","Actor":{"ID":"c9"}}"#;
    assert_eq!(effect(restart, &mut known).message.message, "[unknown - RESTART]");
}

#[test]
fn other_events_are_ignored() {
    let mut known: Vec<String> = Vec::new();
    assert!(matches!(on_event_line("not json", &mut known), Reply::Ignored));
    assert!(matches!(on_event_line(r#"{"Action":"pause"}"#, &mut known), Reply::Ignored));
    assert!(matches!(
        on_event_line(r#"{"Action":"start","time":9223372036854775807}"#, &mut known),
        Reply::OutOfRange
    ));
    let v: serde_json::Value = serde_json::from_str(r#"{"Action":"start","time":9223372036854775807}"#).unwrap();
    assert!(!event_in_range(&v));
    let v: serde_json::Value = serde_json::from_str(r#"{"Action":"start","time":1}"#).unwrap();
    assert!(event_in_range(&v));
    assert!(on_event(&v, &mut known).is_some());
}
