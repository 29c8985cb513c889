//! The query language.

use ocklog::logitem::LogItem;
use ocklog::query::dedup::DedupMode;
use ocklog::query::glob::{glob_contains, match_glob_slice};
use ocklog::query::time::{duration_in_range, timestamp_in_range};
use ocklog::query::{is_quote_char, parse_duration, parse_timestamp_secs, Duration, Modifier, Query, QueryError};
use ocklog::service::ContainerFilterOption;
use std::collections::VecDeque;

fn line(service: &str, message: &str, timestamp: Option<&str>) -> LogItem {
    LogItem::new(service.to_string(), message.to_string(), None, timestamp.map(|t| t.to_string()), false)
}

fn service(name: &str, enabled: bool) -> ContainerFilterOption {
    ContainerFilterOption {
        id: format!("id-{}", name),
        name: name.to_string(),
        enabled,
        is_running: true,
        has_error: false,
    }
}

fn lines(messages: &[&str]) -> VecDeque<LogItem> {
    messages.iter().map(|m| line("svc", m, None)).collect()
}

fn places(query: &str, logs: &VecDeque<LogItem>) -> Vec<usize> {
    let q = Query::parse(query).unwrap();
    q.try_execute(logs, &vec![service("svc", true)], 0).unwrap().0
}

fn message_of(input: &str) -> String {
    match Query::parse(input) {
        Ok(_) => String::new(),
        Err(e) => e.message(),
    }
}

#[test]
fn test_three_types_of_strings_interchangeable() {
    let q1 = Query::parse(r#""hello""#).unwrap();
    let q2 = Query::parse(r#"'hello'"#).unwrap();
    let q3 = Query::parse(r#"`hello`"#).unwrap();
    assert_eq!(q1, q2);
    assert_eq!(q2, q3);
}

#[test]
fn test_self_escaping() {
    let q_single = Query::parse(r#"'Hello I\'ll'"#).unwrap();
    let q_double = Query::parse(r#""Hello I\"ll""#).unwrap();
    let q_backtick = Query::parse(r#"`Hello I\`ll`"#).unwrap();

    let log = LogItem::new("svc".into(), "Hello I'll".into(), None, None, false);
    assert!(q_single.matches(&log, 0));
    assert!(q_double.matches(&log, 0));
    assert!(q_backtick.matches(&LogItem::new("svc".into(), "Hello I`ll".into(), None, None, false), 0));
}

#[test]
fn test_prefixes_with_single_and_backtick() {
    assert!(Query::parse(r#"r'err\d+'"#).is_ok());
    assert!(Query::parse(r#"sr`DEBUG`"#).is_ok());
    assert!(Query::parse(r#"~'*.log'"#).is_ok());
    assert!(Query::parse(r#"s`EXACT`"#).is_ok());
}

#[test]
fn test_pipeline_inside_quotes() {
    let q = Query::parse(r#"'api | v1' | not `error`"#).unwrap();
    assert_eq!(q.pipeline.len(), 1);
}

#[test]
fn a_stage_in_quotes_is_no_keyword() {
    for text in ["since 5m", "LAST", "ünïcode", "dedup all"] {
        for quote in ['"', '\'', '`'] {
            let q = Query::parse(&format!("{}{}{}", quote, text, quote)).unwrap();
            assert!(q.pipeline.is_empty());
            assert!(q.matches(&line("svc", &format!("a {} b", text), None), 0));
            assert!(!q.matches(&line("svc", "nothing", None), 0));
        }
    }
}

#[test]
fn only_the_double_quote_stands_for_an_apostrophe() {
    let finds = |query: &str, text: &str| Query::parse(query).unwrap().matches(&line("svc", text, None), 0);
    assert!(finds("'\"'", "\"") && finds("'\"'", "'"));
    assert!(!finds("\"'\"", "\"") && !finds("\"'\"", "`"));
    assert!(!finds("'`'", "'") && !finds("'`'", "\"") && finds("'`'", "`"));
    assert!(!finds("'\"'", "`"));
    assert!(!finds("s'\"'", "'"));
    assert!(!finds("~'\"'", "'"));
}

#[test]
fn quotes_are_three_characters() {
    assert!(is_quote_char('"'));
    assert!(is_quote_char('\''));
    assert!(is_quote_char('`'));
    assert!(!is_quote_char('x'));
}

#[test]
fn literals_look_at_text_and_letter_case() {
    let log = line("web", "Connection Refused", None);
    assert!(Query::parse("'refused'").unwrap().matches(&log, 0));
    assert!(!Query::parse("s'refused'").unwrap().matches(&log, 0));
    assert!(Query::parse("s'Refused'").unwrap().matches(&log, 0));
}

#[test]
fn case_folding_reaches_beyond_ascii() {
    let log = line("web", "ÜBER", None);
    assert!(Query::parse("'über'").unwrap().matches(&log, 0));
    assert!(!Query::parse("s'über'").unwrap().matches(&log, 0));
}

#[test]
fn regular_expressions_are_searched_for() {
    let log = line("web", "error 42", None);
    assert!(Query::parse(r"r'ERR\w+ \d+'").unwrap().matches(&log, 0));
    assert!(!Query::parse(r"sr'ERR\w+ \d+'").unwrap().matches(&log, 0));
    assert!(!Query::parse(r"r'^\d+$'").unwrap().matches(&log, 0));
}

#[test]
fn globs_stand_for_any_text() {
    let log = line("web", "GET /index.html 200", None);
    assert!(Query::parse("~'get*200'").unwrap().matches(&log, 0));
    assert!(!Query::parse("s~'get*200'").unwrap().matches(&log, 0));
    assert!(Query::parse("s~'GET*html'").unwrap().matches(&log, 0));
}

#[test]
fn glob_functions() {
    let text: Vec<char> = "abcdef".chars().collect();
    let good: Vec<char> = "a*f".chars().collect();
    let bad: Vec<char> = "a*e".chars().collect();
    assert!(match_glob_slice(&good, &text));
    assert!(!match_glob_slice(&bad, &text));
    assert!(glob_contains("a?c", "xxabcxx"));
    assert!(!glob_contains("a?c", "xxabxx"));
}

#[test]
fn connectives() {
    let both = line("web", "alpha beta", None);
    let one = line("web", "alpha", None);
    let q = Query::parse("'alpha' and 'beta'").unwrap();
    assert!(q.matches(&both, 0));
    assert!(!q.matches(&one, 0));
    let q = Query::parse("'gamma' or 'alpha'").unwrap();
    assert!(q.matches(&one, 0));
    let q = Query::parse("not 'beta'").unwrap();
    assert!(q.matches(&one, 0));
    assert!(!q.matches(&both, 0));
    let q = Query::parse("('gamma' or 'alpha') and not 'beta'").unwrap();
    assert!(q.matches(&one, 0));
    assert!(!q.matches(&both, 0));
}

#[test]
fn errors_say_what_is_wrong() {
    assert_eq!(message_of("'a' | since never"), "Invalid duration for 'since': 'never'");
    assert_eq!(
        message_of("'a' | before never"),
        "Invalid argument for 'before': 'never' (expected duration or line count)"
    );
    assert_eq!(message_of("'a' | after x"), "Invalid line count for 'after': 'x'");
    assert_eq!(
        message_of("'a' | context 1 2 3"),
        "'context' expects 1 or 2 integer arguments, got: '1 2 3'"
    );
    assert_eq!(
        message_of("'a' | dedup never"),
        "Invalid argument for 'dedup': 'never' (expected empty, 'all', or duration)"
    );
    assert_eq!(
        message_of("plain"),
        "Unexpected unquoted term 'plain': search terms must be quoted using \"\", '', or ``"
    );
    assert_eq!(message_of("'a' and"), "Unexpected end of expression");
    assert_eq!(message_of("('a'"), "Unclosed parenthesis");
    assert!(message_of("r'('").starts_with("Invalid regex '(': "));
    assert_eq!(message_of("'a' | first x"), "invalid digit found in string");
}

#[test]
fn errors_by_kind() {
    assert!(matches!(Query::parse("'a' | since never"), Err(QueryError::Since(_))));
    assert!(matches!(Query::parse("'a' | before never"), Err(QueryError::Before(_))));
    assert!(matches!(Query::parse("'a' | after x"), Err(QueryError::After(_))));
    assert!(matches!(Query::parse("'a' | context 1 2 3"), Err(QueryError::Context(_))));
    assert!(matches!(Query::parse("'a' | dedup never"), Err(QueryError::Dedup(_))));
    assert!(matches!(Query::parse("'a' | first x"), Err(QueryError::Number(_))));
    assert!(matches!(Query::parse("r'('"), Err(QueryError::Regex(_, _))));
    assert!(matches!(Query::parse("plain"), Err(QueryError::Unquoted(_))));
    assert!(matches!(Query::parse("'a' and"), Err(QueryError::End)));
    assert!(matches!(Query::parse("('a'"), Err(QueryError::Unclosed)));
    assert!(matches!(Query::parse("and 'a'"), Err(QueryError::UnexpectedAnd)));
    assert!(matches!(Query::parse("or 'a'"), Err(QueryError::UnexpectedOr)));
    assert!(matches!(Query::parse(") 'a'"), Err(QueryError::UnexpectedClose)));
}

#[test]
fn a_bar_alone_is_no_term() {
    let chars: Vec<char> = "|".chars().collect();
    assert!(matches!(ocklog::query::lexer::tokenize_stage(&chars), Err(QueryError::Bar)));
}

#[test]
fn durations_have_units() {
    assert_eq!(parse_duration("250ms"), Some(Duration { secs: 0, nanos: 250_000_000 }));
    assert_eq!(parse_duration("5s"), Some(Duration { secs: 5, nanos: 0 }));
    assert_eq!(parse_duration("5m"), Some(Duration { secs: 300, nanos: 0 }));
    assert_eq!(parse_duration("2 hours"), Some(Duration { secs: 7200, nanos: 0 }));
    assert_eq!(parse_duration("1D"), Some(Duration { secs: 86400, nanos: 0 }));
    assert_eq!(parse_duration("5x"), None);
    assert_eq!(parse_duration("m"), None);
    assert_eq!(parse_duration(""), None);
    assert!(duration_in_range("18446744073709551615s"));
    assert!(!duration_in_range("18446744073709551615d"));
}

#[test]
fn dates_are_turned_into_seconds() {
    assert_eq!(parse_timestamp_secs("1970-01-01T00:00:00Z"), Some(0));
    assert_eq!(parse_timestamp_secs("2024-01-15T10:30:45.123456789Z"), Some(1705314645));
    assert_eq!(parse_timestamp_secs("2000-02-29T12:00:00"), Some(951825600));
    assert_eq!(parse_timestamp_secs("2000-02-29 12:00:00"), None);
    assert_eq!(parse_timestamp_secs("1969-12-31T23:59:59Z"), None);
    assert_eq!(parse_timestamp_secs("yesterday"), None);
    assert!(timestamp_in_range("2024-01-15T10:30:45Z"));
}

#[test]
fn since_and_before_look_at_dates() {
    let now: u64 = 1705314645;
    let fresh = line("web", "x", Some("2024-01-15T10:30:00Z"));
    let stale = line("web", "x", Some("2024-01-15T09:30:00Z"));
    let undated = line("web", "x", None);
    let q = Query::parse("since 5m").unwrap();
    assert_eq!(q.try_matches(&fresh, now), Some(true));
    assert_eq!(q.try_matches(&stale, now), Some(false));
    assert_eq!(q.try_matches(&undated, now), Some(true));
    let q = Query::parse("before 5m").unwrap();
    assert_eq!(q.try_matches(&fresh, now), Some(false));
    assert_eq!(q.try_matches(&stale, now), Some(true));
}

#[test]
fn queries_out_of_range_are_not_read() {
    assert!(Query::try_parse("since 18446744073709551615d").is_none());
    assert!(Query::try_parse("since 5m").unwrap().is_ok());
    assert!(Query::try_parse("since x").unwrap().is_err());
}

#[test]
fn first_and_last_take_ends() {
    let logs = lines(&["a1", "b", "a2", "a3"]);
    assert_eq!(places("'a' | first 2", &logs), vec![0, 2]);
    assert_eq!(places("'a' | last 2", &logs), vec![2, 3]);
}

#[test]
fn context_brings_neighbours() {
    let logs = lines(&["n0", "n1", "hit", "n3", "n4"]);
    assert_eq!(places("'hit' | context 1", &logs), vec![1, 2, 3]);
    assert_eq!(places("'hit' | context 2 0", &logs), vec![0, 1, 2]);
    assert_eq!(places("'hit' | before 1", &logs), vec![1, 2]);
    assert_eq!(places("'hit' | after 1", &logs), vec![2, 3]);
}

#[test]
fn selection_keeps_order_and_skips_disabled_services() {
    let mut logs = lines(&["a", "b", "a"]);
    logs.push_back(line("other", "a", None));
    let q = Query::parse("'a'").unwrap();
    let options = vec![service("svc", true), service("other", false)];
    assert_eq!(q.try_execute(&logs, &options, 0).unwrap().0, vec![0, 2]);
    let options = vec![service("svc", true), service("other", true)];
    assert_eq!(q.try_execute(&logs, &options, 0).unwrap().0, vec![0, 2, 3]);
}

#[test]
fn an_empty_query_selects_all() {
    let logs = lines(&["a", "b"]);
    let q = Query::parse("").unwrap();
    assert_eq!(q.try_execute(&logs, &vec![service("svc", true)], 0).unwrap().0, vec![0, 1]);
}

#[test]
fn repetitions_are_folded() {
    let logs = lines(&["a", "a", "b", "a"]);
    let q = Query::parse("dedup").unwrap();
    assert!(matches!(q.pipeline[0], Modifier::Deduplicate(DedupMode::Consecutive)));
    let (rows, shown) = q.try_execute(&logs, &vec![service("svc", true)], 0).unwrap();
    let shown: Vec<String> = shown.unwrap().into_iter().map(|l| l.content).collect();
    assert_eq!(rows.len(), 3);
    assert_eq!(shown, vec![" 2x  — a".to_string(), "b".to_string(), "a".to_string()]);
    let q = Query::parse("dedup all").unwrap();
    let (rows, shown) = q.try_execute(&logs, &vec![service("svc", true)], 0).unwrap();
    let shown: Vec<String> = shown.unwrap().into_iter().map(|l| l.content).collect();
    assert_eq!(rows.len(), 2);
    assert!(shown.contains(&" 3x  — a".to_string()));
    assert!(shown.contains(&"b".to_string()));
}

#[test]
fn counted_lines_add_up() {
    let logs = lines(&["2x - a", "[3x] a"]);
    let q = Query::parse("dedup").unwrap();
    let (_, shown) = q.try_execute(&logs, &vec![service("svc", true)], 0).unwrap();
    assert_eq!(shown.unwrap()[0].content, " 5x  — a");
}

#[test]
fn lines_folded_before_are_not_folded_again() {
    let logs = lines(&["a", "a"]);
    let q = Query::parse("dedup | dedup").unwrap();
    assert!(q.try_execute(&logs, &vec![service("svc", true)], 0).is_none());
    assert!(!q.can_execute(&logs, &vec![service("svc", true)], 0));
}

#[test]
fn stream_steps_are_told_from_conditions() {
    assert!(Query::parse("'a' | first 3").unwrap().has_stream_modifiers());
    assert!(!Query::parse("'a' | since 5m").unwrap().has_stream_modifiers());
}

#[test]
fn windows_fold_what_is_near_in_time() {
    let mut logs: VecDeque<LogItem> = VecDeque::new();
    logs.push_back(line("svc", "a", Some("2024-01-15T10:00:00Z")));
    logs.push_back(line("svc", "a", Some("2024-01-15T10:00:05Z")));
    logs.push_back(line("svc", "a", Some("2024-01-15T10:10:00Z")));
    let q = Query::parse("dedup 1m").unwrap();
    let (rows, shown) = q.try_execute(&logs, &vec![service("svc", true)], 0).unwrap();
    assert_eq!(rows.len(), 2);
    let shown: Vec<String> = shown.unwrap().into_iter().map(|l| l.content).collect();
    assert_eq!(shown, vec![" 2x  — a".to_string(), "a".to_string()]);
}

#[test]
fn copies_of_queries_are_equal() {
    let q = Query::parse("('a' or not r'b+') and ~'c*' | since 5m | context 1 2 | dedup all").unwrap();
    let copy = q.clone();
    assert_eq!(q, copy);
    assert_ne!(q, Query::parse("'a'").unwrap());
}
