//! Keys, commands, the mouse, the clipboard and messages on their way in.

use ocklog::commands::base64::{base64_encode, clipboard_sequence};
use ocklog::commands::ingest::{
    daemon_error_text, initial_tail, item_of, no_socket_text, option_of, sort_messages, system_item, try_item_of,
};
use ocklog::commands::keys::{decide, Command, Key, KeyCode, Mods};
use ocklog::commands::level::infer_log_level;
use ocklog::commands::outcome::{auto_scroll_due, Mouse, MouseKind, Outcome};
use ocklog::docker::{ContainerInfo, DockerLogMsg, StreamType};
use ocklog::logitem::LogItem;
use ocklog::state::{AppState, PromptMode, VisualMode};
use std::collections::VecDeque;

fn message(text: &str, timestamp: Option<&str>) -> DockerLogMsg {
    DockerLogMsg {
        container_id: "c1".to_string(),
        service_name: "web".to_string(),
        timestamp: timestamp.map(|t| t.to_string()),
        message: text.to_string(),
        stream_type: StreamType::Stdout,
        is_system_event: false,
    }
}

fn viewer(lines: &[&str]) -> AppState {
    let mut s = AppState::new(100);
    s.viewport_width = 40;
    s.viewport_height = 10;
    s.add_containers(&vec![ContainerInfo {
        id: "c1".to_string(),
        name: "web".to_string(),
        is_running: true,
        has_error: false,
    }]);
    for l in lines {
        let item = LogItem::new("web".to_string(), l.to_string(), None, None, false);
        assert!(s.try_push_log(item));
    }
    s
}

fn press(s: &mut AppState, pending: bool, code: KeyCode, mods: Mods) -> (Command, bool) {
    let (c, g) = decide(s, pending, Key { code, mods });
    s.perform(c);
    (c, g)
}

fn type_text(s: &mut AppState, text: &str) {
    for c in text.chars() {
        press(s, false, KeyCode::Char(c), Mods::Plain);
    }
}

#[test]
fn a_drag_scrolls_every_sixty_milliseconds() {
    assert!(!auto_scroll_due(0));
    assert!(!auto_scroll_due(59));
    assert!(auto_scroll_due(60));
    assert!(auto_scroll_due(u128::MAX));
}

#[test]
fn base64_of_known_texts() {
    assert_eq!(base64_encode(""), "");
    assert_eq!(base64_encode("f"), "Zg==");
    assert_eq!(base64_encode("fo"), "Zm8=");
    assert_eq!(base64_encode("foo"), "Zm9v");
    assert_eq!(base64_encode("foobar"), "Zm9vYmFy");
    assert_eq!(base64_encode("é"), "w6k=");
    assert_eq!(clipboard_sequence("foo"), "\u{1b}]52;c;Zm9v\u{7}");
}

#[test]
fn levels_are_inferred() {
    assert_eq!(infer_log_level("an Error came", false), Some("ERROR".to_string()));
    assert_eq!(infer_log_level("fatal", false), Some("ERROR".to_string()));
    assert_eq!(infer_log_level("warning", false), Some("WARN".to_string()));
    assert_eq!(infer_log_level("info", false), Some("INFO".to_string()));
    assert_eq!(infer_log_level("debug", false), Some("DEBUG".to_string()));
    assert_eq!(infer_log_level("hello", false), None);
    assert_eq!(infer_log_level("error", true), Some("SYS".to_string()));
}

#[test]
fn messages_become_lines() {
    let item = item_of(message("\u{1b}[31merror\u{1b}[0m", Some("2024-01-15T10:30:45.000000000Z")));
    assert_eq!(item.content, "error");
    assert_eq!(item.service, "web");
    assert_eq!(item.level, Some("ERROR".to_string()));
    assert_eq!(item.timestamp, Some("2024-01-15T10:30:45.000000000Z".to_string()));
    assert!(try_item_of(message("\u{1b}[3é", None)).is_none());
    assert!(try_item_of(message("fine", None)).is_some());
}

#[test]
fn lines_of_the_viewers_own() {
    assert_eq!(daemon_error_text("denied"), "Docker daemon error: denied. Check socket permissions.");
    assert_eq!(no_socket_text(), "Docker socket /var/run/docker.sock not found.");
    let item = system_item(no_socket_text(), "WARN").unwrap();
    assert!(item.is_system);
    assert_eq!(item.service, "system");
    assert_eq!(item.level, Some("WARN".to_string()));
}

#[test]
fn more_is_asked_of_what_runs_or_failed() {
    assert_eq!(initial_tail(true, false), 1000);
    assert_eq!(initial_tail(false, true), 1000);
    assert_eq!(initial_tail(false, false), 100);
}

#[test]
fn messages_are_sorted_by_date() {
    let mut v: VecDeque<DockerLogMsg> = VecDeque::new();
    v.push_back(message("b", Some("2")));
    v.push_back(message("none", None));
    v.push_back(message("a", Some("1")));
    v.push_back(message("c", Some("2")));
    let sorted: Vec<String> = sort_messages(v).into_iter().map(|m| m.message).collect();
    assert_eq!(sorted, vec!["none".to_string(), "a".to_string(), "b".to_string(), "c".to_string()]);
}

#[test]
fn containers_become_options() {
    let o = option_of(&ContainerInfo {
        id: "x".to_string(),
        name: "db".to_string(),
        is_running: false,
        has_error: true,
    });
    assert_eq!(o.name, "db");
    assert!(o.enabled && o.has_error && !o.is_running);
    let mut s = viewer(&[]);
    s.note_status("c1", false, true);
    assert!(s.service_options[0].has_error);
    assert!(!s.service_options[0].is_running);
    s.note_status("other", true, false);
    assert!(s.service_options[0].has_error);
}

#[test]
fn keys_in_the_log() {
    let mut s = viewer(&["one", "two", "three"]);
    s.move_to_top();
    assert_eq!(press(&mut s, false, KeyCode::Char('j'), Mods::Plain).0, Command::Down(1));
    assert_eq!(s.cursor_row, 1);
    press(&mut s, false, KeyCode::Char('k'), Mods::Plain);
    assert_eq!(s.cursor_row, 0);
    press(&mut s, false, KeyCode::Char('G'), Mods::Shift);
    assert_eq!(s.cursor_row, 2);
    let (c, g) = press(&mut s, false, KeyCode::Char('g'), Mods::Plain);
    assert_eq!((c, g), (Command::Nothing, true));
    let (c, g) = press(&mut s, true, KeyCode::Char('g'), Mods::Plain);
    assert_eq!((c, g), (Command::Top, false));
    assert_eq!(s.cursor_row, 0);
    assert_eq!(decide(&s, false, Key { code: KeyCode::Char('q'), mods: Mods::Plain }).0, Command::Quit);
}

#[test]
fn escape_leaves_what_is_open() {
    let mut s = viewer(&["one"]);
    press(&mut s, false, KeyCode::Char('f'), Mods::Control);
    assert_eq!(s.prompt_mode, PromptMode::Filter);
    assert!(s.is_typing());
    assert_eq!(decide(&s, false, Key { code: KeyCode::Char('q'), mods: Mods::Plain }).0, Command::InputInsert('q'));
    press(&mut s, false, KeyCode::Esc, Mods::Plain);
    assert_eq!(s.prompt_mode, PromptMode::Off);
    press(&mut s, false, KeyCode::Char('s'), Mods::Control);
    assert!(s.show_service_menu);
    press(&mut s, false, KeyCode::Char('f'), Mods::Control);
    assert!(s.show_service_search);
    press(&mut s, false, KeyCode::Esc, Mods::Plain);
    assert!(s.show_service_menu && !s.show_service_search);
    press(&mut s, false, KeyCode::Esc, Mods::Plain);
    assert!(!s.show_service_menu);
    press(&mut s, false, KeyCode::Char('v'), Mods::Plain);
    assert_eq!(s.visual_mode, VisualMode::Character);
    press(&mut s, false, KeyCode::Char('c'), Mods::Control);
    assert_eq!(s.visual_mode, VisualMode::Off);
    assert_eq!(decide(&s, true, Key { code: KeyCode::Esc, mods: Mods::Plain }), (Command::Nothing, false));
    assert!(!s.is_typing());
}

#[test]
fn a_filter_is_typed_and_applied() {
    let mut s = viewer(&["one", "two", "three"]);
    press(&mut s, false, KeyCode::Char('f'), Mods::Control);
    type_text(&mut s, "'t'");
    assert_eq!(s.input_buffer, "'t'");
    assert_eq!(s.filter_cursor_col, 3);
    assert!(s.live_filter_ast.is_some());
    press(&mut s, false, KeyCode::Enter, Mods::Plain);
    assert_eq!(s.active_filter_str, Some("'t'".to_string()));
    assert_eq!(s.visible_indices, vec![1, 2]);
    assert_eq!(s.prompt_mode, PromptMode::Off);
}

#[test]
fn typing_is_edited() {
    let mut s = viewer(&["one"]);
    press(&mut s, false, KeyCode::Char('f'), Mods::Control);
    type_text(&mut s, "'a' 'bc'");
    press(&mut s, false, KeyCode::Backspace, Mods::Plain);
    assert_eq!(s.input_buffer, "'a' 'bc");
    press(&mut s, false, KeyCode::Char('w'), Mods::Control);
    assert_eq!(s.input_buffer, "'a' ");
    press(&mut s, false, KeyCode::Home, Mods::Plain);
    assert_eq!(s.filter_cursor_col, 0);
    press(&mut s, false, KeyCode::Delete, Mods::Plain);
    assert_eq!(s.input_buffer, "a' ");
    press(&mut s, false, KeyCode::Char('u'), Mods::Control);
    assert_eq!(s.input_buffer, "");
}

#[test]
fn what_is_out_of_range_is_refused() {
    let mut s = viewer(&["one"]);
    press(&mut s, false, KeyCode::Char('f'), Mods::Control);
    s.input_buffer = "since 18446744073709551615d".to_string();
    assert!(matches!(s.perform(Command::ApplyFilter), Outcome::Refused));
    s.input_buffer = "'one'".to_string();
    assert!(matches!(s.perform(Command::ApplyFilter), Outcome::Done(None)));
}

#[test]
fn services_are_switched() {
    let mut s = viewer(&["one", "two"]);
    assert_eq!(s.visible_count(), 2);
    press(&mut s, false, KeyCode::Char('s'), Mods::Control);
    press(&mut s, false, KeyCode::Enter, Mods::Plain);
    assert!(!s.service_options[0].enabled);
    assert_eq!(s.visible_count(), 0);
    press(&mut s, false, KeyCode::Char('a'), Mods::Control);
    assert!(s.service_options[0].enabled);
    assert_eq!(s.visible_count(), 2);
    press(&mut s, false, KeyCode::Char('x'), Mods::Control);
    assert_eq!(s.visible_count(), 0);
}

#[test]
fn a_selection_is_copied() {
    let mut s = viewer(&["one", "two"]);
    s.move_to_top();
    s.perform(Command::Select(VisualMode::Line));
    s.perform(Command::Down(1));
    match s.perform(Command::Copy) {
        Outcome::Done(Some(text)) => assert_eq!(text, "[web] one\n[web] two"),
        _ => panic!("nothing copied"),
    }
    assert_eq!(s.visual_mode, VisualMode::Off);
    assert!(s.clipboard_notice.is_some());
}

#[test]
fn the_mouse_selects_and_scrolls() {
    let mut s = viewer(&["one", "two", "three"]);
    s.move_to_top();
    s.on_mouse(Mouse { kind: MouseKind::Down, column: 7, row: 0 });
    assert_eq!(s.visual_mode, VisualMode::Character);
    assert_eq!((s.cursor_row, s.cursor_col), (0, 7));
    s.on_mouse(Mouse { kind: MouseKind::Drag, column: 8, row: 0 });
    assert!(s.is_mouse_dragging);
    let copied = s.on_mouse(Mouse { kind: MouseKind::Up, column: 8, row: 0 });
    assert_eq!(copied, Some("ne".to_string()));
    assert_eq!(s.visual_mode, VisualMode::Off);
    s.on_mouse(Mouse { kind: MouseKind::Down, column: 1, row: 1 });
    assert_eq!(s.visual_mode, VisualMode::Line);
    s.on_mouse(Mouse { kind: MouseKind::Up, column: 1, row: 1 });
    s.move_to_top();
    s.on_mouse(Mouse { kind: MouseKind::ScrollDown, column: 0, row: 0 });
    assert_eq!(s.cursor_row, 2);
    assert!(!s.sticky);
}

#[test]
fn the_open_menu_keeps_the_mouse() {
    let mut s = viewer(&["one"]);
    s.perform(Command::OpenMenu);
    assert!(s.on_mouse(Mouse { kind: MouseKind::Down, column: 1, row: 5 }).is_none());
    assert!(s.show_service_menu);
    s.viewport_width = 80;
    s.viewport_height = 30;
    s.on_mouse(Mouse { kind: MouseKind::Down, column: 70, row: 1 });
    assert!(!s.show_service_menu);
}
