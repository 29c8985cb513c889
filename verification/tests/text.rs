//! Text: escape sequences, widths, wrapping, tags and numbers.

use ocklog::ansi::{ansi_readable, parse_ansi};
use ocklog::logitem::{can_truncate, truncate_service, LogItem};
use ocklog::numbers::{decimal_of, parse_signed, parse_unsigned, parse_usize};
use ocklog::state::{
    char_at_display_width, char_display_width, get_log_visual_chunks, get_unfolded_content_width,
    str_display_width_up_to, visual_lines_for_log,
};
use ocklog::style::{Emphasis, RatColor, Style};
use ocklog::text::{chars_of, not_after, same_str, split_words, string_of};

fn chars(s: &str) -> Vec<char> {
    s.chars().collect()
}

#[test]
fn plain_text_is_one_segment() {
    let (text, segments) = parse_ansi("hello");
    assert_eq!(text, "hello");
    assert_eq!(segments.len(), 1);
    assert_eq!(segments[0].style, Style::plain());
}

#[test]
fn colours_and_emphasis_are_read() {
    let (text, segments) = parse_ansi("\u{1b}[1;31mred\u{1b}[0m rest");
    assert_eq!(text, "red rest");
    assert_eq!(segments.len(), 2);
    assert_eq!(segments[0].text, "red");
    assert_eq!(segments[0].style, Style::plain().fg(RatColor::Red).with(Emphasis::bold()));
    assert_eq!(segments[1].style, Style::plain());
}

#[test]
fn extended_colours_are_read() {
    let (_, segments) = parse_ansi("\u{1b}[38;5;208mx\u{1b}[48;2;1;2;3my");
    assert_eq!(segments[0].style, Style::plain().fg(RatColor::Indexed(208)));
    assert_eq!(segments[1].style, Style::plain().fg(RatColor::Indexed(208)).bg(RatColor::Rgb(1, 2, 3)));
}

#[test]
fn other_commands_are_left_out() {
    let (text, _) = parse_ansi("a\u{1b}[2Kb");
    assert_eq!(text, "ab");
    assert!(ansi_readable("a\u{1b}[2Kb"));
    assert!(!ansi_readable("a\u{1b}[2éb"));
}

#[test]
fn widths_of_characters() {
    assert_eq!(char_display_width('a'), 1);
    assert_eq!(char_display_width('\u{7}'), 0);
    assert_eq!(char_display_width('日'), 2);
    assert_eq!(char_display_width('é'), 1);
    assert_eq!(str_display_width_up_to("a日b", 2), 3);
    assert_eq!(str_display_width_up_to("a日b", 99), 4);
    assert_eq!(char_at_display_width("a日b", 2), 1);
    assert_eq!(char_at_display_width("a日b", 3), 2);
    assert_eq!(char_at_display_width("ab", 99), 2);
}

#[test]
fn lines_are_wrapped() {
    let chunks = get_log_visual_chunks("abcdefg", 3);
    let texts: Vec<String> = chunks.iter().map(|c| c.text.clone()).collect();
    assert_eq!(texts, vec!["abc".to_string(), "def".to_string(), "g".to_string()]);
    assert_eq!(chunks[1].content_char_start, 3);
    assert!(chunks[0].has_continuation);
    assert!(!chunks[2].has_continuation);
    let chunks = get_log_visual_chunks("ab\r\n\ncd", 10);
    assert_eq!(chunks.len(), 3);
    assert_eq!(chunks[0].text, "ab");
    assert_eq!(chunks[1].text, "");
    assert_eq!(chunks[2].content_char_start, 4);
}

#[test]
fn rows_are_counted_as_they_are_wrapped() {
    let item = LogItem::new("s".into(), "abcdefg\nx".into(), None, None, false);
    assert_eq!(visual_lines_for_log(&item, 3), 4);
    assert_eq!(get_log_visual_chunks(&item.content, 3).len(), 4);
}

#[test]
fn content_keeps_one_cell() {
    assert_eq!(get_unfolded_content_width(80, 10), 68);
    assert_eq!(get_unfolded_content_width(5, 10), 1);
}

#[test]
fn names_are_cut_to_sixteen_bytes() {
    assert_eq!(truncate_service("short", 16), "short");
    assert_eq!(truncate_service("a-very-long-service", 16), "a-very-long-ser…");
    assert!(can_truncate("a-very-long-service", 16));
    assert!(!can_truncate("ääääääääää", 16));
    assert!(!can_truncate("x", 0));
}

#[test]
fn tags_and_prefixes() {
    let item = LogItem::new("web".into(), "hello".into(), None, None, false);
    assert_eq!(item.tag_text(), "[web] ");
    assert_eq!(item.full_line_text(), "[web] hello");
    assert_eq!(item.prefix_len(), 6);
    let item = LogItem::new("web".into(), "hello".into(), None, None, true);
    assert_eq!(item.full_line_text(), "hello");
    assert_eq!(item.prefix_len(), 0);
}

#[test]
fn numbers_read_back() {
    let n: u64 = 1_234_567;
    assert_eq!(parse_unsigned(&decimal_of(n), 10, u64::MAX), Some(n));
    assert_eq!(decimal_of(0), vec!['0']);
    assert_eq!(parse_usize(&chars("+7")), Some(7));
    assert_eq!(parse_usize(&chars("-7")), None);
    assert_eq!(parse_signed(&chars("-7")), Some(-7));
    assert_eq!(parse_unsigned(&chars("ff"), 16, 255), Some(255));
    assert_eq!(parse_unsigned(&chars("100"), 16, 255), None);
}

#[test]
fn text_functions() {
    assert_eq!(chars_of("añb"), chars("añb"));
    assert_eq!(string_of(&chars("añb")), "añb");
    assert!(same_str("ab", "ab"));
    assert!(!same_str("ab", "ac"));
    assert!(not_after("ab", "b"));
    assert!(!not_after("b", "ab"));
    let v = chars("  one two ");
    assert_eq!(split_words(&v).len(), 2);
}

#[test]
fn styles_are_laid_over_each_other() {
    let base = Style::plain().fg(RatColor::Red).with(Emphasis::bold());
    let over = Style::plain().bg(RatColor::Blue).without(Emphasis::bold());
    let both = base.patch(over);
    assert_eq!(both.fg, Some(RatColor::Red));
    assert_eq!(both.bg, Some(RatColor::Blue));
    assert!(!both.on.bold);
    assert!(both.off.bold);
}
