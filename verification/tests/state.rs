//! The viewer's state.

use ocklog::logitem::LogItem;
use ocklog::query::Query;
use ocklog::service::{is_first_enabled, is_service_enabled, ContainerFilterOption};
use ocklog::state::fits::{item_dated, item_showable};
use ocklog::state::{AppState, PromptMode, VisualMode};
use ocklog::worker::{QueryFilterReq, QueryFilterWorker};

fn option(name: &str, enabled: bool) -> ContainerFilterOption {
    ContainerFilterOption {
        id: format!("id-{}", name),
        name: name.to_string(),
        enabled,
        is_running: true,
        has_error: false,
    }
}

fn item(service: &str, text: &str, ts: Option<&str>) -> LogItem {
    LogItem::new(service.to_string(), text.to_string(), None, ts.map(|t| t.to_string()), false)
}

fn viewer(lines: &[&str]) -> AppState {
    let mut s = AppState::new(100);
    s.viewport_width = 40;
    s.viewport_height = 4;
    s.service_options.push(option("web", true));
    for l in lines {
        assert!(s.try_push_log(item("web", l, None)));
    }
    s
}

fn contents(s: &AppState) -> Vec<String> {
    s.logs.iter().map(|l| l.content.clone()).collect()
}

#[test]
fn a_new_viewer_is_empty() {
    let s = AppState::new(7);
    assert_eq!(s.max_capacity, 7);
    assert_eq!(s.visible_count(), 0);
    assert_eq!(s.scrolloff, 6);
    assert!(s.line_fold && s.sticky);
    assert_eq!(s.visual_mode, VisualMode::Off);
    assert_eq!(s.prompt_mode, PromptMode::Off);
    assert!(s.get_visible_log(0).is_none());
}

#[test]
fn lines_stand_in_the_order_of_their_dates() {
    let mut s = AppState::new(100);
    s.service_options.push(option("web", true));
    for (text, ts) in [("b", "2024-01-15T10:00:02Z"), ("a", "2024-01-15T10:00:01Z"), ("c", "2024-01-15T10:00:03Z")] {
        assert!(s.try_push_log(item("web", text, Some(ts))));
    }
    assert_eq!(contents(&s), vec!["a".to_string(), "b".to_string(), "c".to_string()]);
    assert_eq!(s.visible_indices, vec![0, 1, 2]);
    assert_eq!(s.reference_timestamp_secs(), 1705312803);
}

#[test]
fn the_oldest_line_makes_room() {
    let mut s = AppState::new(2);
    s.service_options.push(option("web", true));
    for l in ["a", "b", "c"] {
        assert!(s.try_push_log(item("web", l, None)));
    }
    assert_eq!(contents(&s), vec!["b".to_string(), "c".to_string()]);
}

#[test]
fn moves_stay_in_the_log() {
    let mut s = viewer(&["one", "two", "three"]);
    s.move_to_top();
    s.move_up(5);
    assert_eq!(s.cursor_row, 0);
    s.move_down(100);
    assert_eq!(s.cursor_row, 2);
    s.move_to_top();
    s.move_right(3);
    assert_eq!(s.cursor_col, 3);
    s.move_right(100);
    assert_eq!(s.cursor_col, 8);
    s.move_left(100);
    assert_eq!(s.cursor_col, 0);
}

#[test]
fn the_cursor_stays_on_the_screen() {
    let lines: Vec<String> = (0..30).map(|i| format!("line {}", i)).collect();
    let refs: Vec<&str> = lines.iter().map(|s| s.as_str()).collect();
    let mut s = viewer(&refs);
    s.move_to_top();
    for _ in 0..29 {
        s.move_down(1);
        assert!(s.scroll_offset <= s.cursor_row && s.cursor_row < s.scroll_offset + s.viewport_height);
    }
    s.toggle_line_fold();
    assert!(!s.line_fold);
    for _ in 0..29 {
        s.move_up(1);
        assert!(s.scroll_offset <= s.cursor_row);
    }
}

#[test]
fn words_are_found() {
    let mut s = viewer(&["alpha beta gamma"]);
    s.move_to_top();
    s.move_word_forward();
    assert_eq!(s.cursor_col, 1);
    s.move_right(5);
    s.move_word_forward();
    assert_eq!(s.cursor_col, 12);
    s.move_word_end();
    assert_eq!(s.cursor_col, 15);
    s.move_word_backward();
    assert_eq!(s.cursor_col, 12);
}

#[test]
fn a_mark_made_twice_is_no_mark() {
    let mut s = viewer(&["one", "two"]);
    s.move_to_top();
    s.toggle_current_line();
    assert!(s.is_row_toggled(0));
    assert_eq!(s.get_selected_text(), Some("[web] one".to_string()));
    s.toggle_current_line();
    assert!(!s.is_row_toggled(0));
    assert_eq!(s.get_selected_text(), None);
}

#[test]
fn selections_by_mode() {
    let mut s = viewer(&["one", "two", "three"]);
    s.move_to_top();
    s.move_right(6);
    s.toggle_visual_mode(VisualMode::Character);
    s.move_down(1);
    assert_eq!(s.get_selected_text(), Some("one\n[web] t".to_string()));
    s.exit_visual_mode();
    assert_eq!(s.get_selected_text(), None);
    s.toggle_visual_mode(VisualMode::Block);
    s.move_down(1);
    assert_eq!(s.get_selected_text(), Some("t\nt".to_string()));
    s.toggle_visual_mode(VisualMode::Block);
    assert_eq!(s.visual_mode, VisualMode::Off);
}

#[test]
fn lines_of_the_log_are_measured() {
    let mut s = viewer(&["one", "three"]);
    s.move_to_top();
    assert_eq!(s.current_line_len(), 9);
    assert_eq!(s.current_line_content_end_col(), 8);
    assert_eq!(s.max_content_len(), 5);
    assert_eq!(s.max_line_len(), 120);
    assert_eq!(s.viewport_content_window_width(), 32);
}

#[test]
fn filters_are_applied() {
    let mut s = viewer(&["one", "two", "three"]);
    s.filter_ast = Some(Query::parse("'t'").unwrap());
    assert!(s.try_recompute());
    assert_eq!(s.visible_indices, vec![1, 2]);
    assert!(s.try_push_log(item("web", "four", None)));
    assert!(s.try_push_log(item("web", "ten", None)));
    assert_eq!(s.visible_indices, vec![1, 2, 4]);
    let pushed = s.visible_indices.clone();
    assert!(s.try_recompute());
    assert_eq!(s.visible_indices, pushed);
    assert_eq!(s.try_item_matches(&item("web", "four", None), 0), Some(false));
    assert_eq!(s.try_item_matches(&item("gone", "ten", None), 0), Some(true));
    s.service_options.push(option("gone", false));
    assert_eq!(s.try_item_matches(&item("gone", "ten", None), 0), Some(false));
}

#[test]
fn the_cursor_keeps_its_line_when_the_filter_goes() {
    let mut s = viewer(&["one", "two", "three"]);
    s.filter_ast = Some(Query::parse("'three'").unwrap());
    assert!(s.try_recompute());
    s.move_to_top();
    s.sticky = false;
    s.filter_ast = None;
    assert!(s.try_recompute());
    assert_eq!(s.cursor_row, 2);
}

#[test]
fn folding_shows_lines_of_its_own() {
    let mut s = viewer(&["a", "a", "b"]);
    s.filter_ast = Some(Query::parse("dedup").unwrap());
    assert!(s.try_recompute());
    assert_eq!(s.visible_count(), 2);
    assert_eq!(s.get_visible_log(0).unwrap().content, " 2x  — a");
    s.filter_ast = Some(Query::parse("dedup | dedup").unwrap());
    assert!(!s.can_recompute(0));
    assert!(!s.try_recompute());
}

#[test]
fn the_filter_being_typed_is_read() {
    let mut s = viewer(&["a"]);
    s.prompt_mode = PromptMode::Filter;
    s.input_buffer = " 'a' ".to_string();
    assert!(s.try_update_live_filter());
    assert!(s.live_filter_ast.is_some());
    s.input_buffer = "a".to_string();
    assert!(s.try_update_live_filter());
    assert!(s.live_filter_ast.is_none());
    s.input_buffer = "since 18446744073709551615d".to_string();
    assert!(!s.try_update_live_filter());
}

#[test]
fn services_are_searched() {
    let mut s = viewer(&[]);
    s.service_options.push(option("Database", true));
    assert_eq!(s.filtered_service_indices(), vec![0, 1]);
    s.show_service_search = true;
    s.service_search_query = "DATA".to_string();
    assert_eq!(s.filtered_service_indices(), vec![1]);
    s.service_menu_selected_idx = 1;
    s.update_service_search();
    assert_eq!(s.service_menu_selected_idx, 0);
}

#[test]
fn one_option_decides_on_a_service() {
    let opts = vec![option("web", true), option("db", false)];
    assert!(is_service_enabled(&opts, "web") && is_first_enabled(&opts, "web"));
    assert!(!is_service_enabled(&opts, "db") && !is_first_enabled(&opts, "db"));
    assert!(is_first_enabled(&opts, "other"));
}

#[test]
fn lines_that_cannot_be_measured_or_dated_are_kept() {
    assert!(item_showable(&item("web", "x", None)));
    assert!(!item_showable(&item("ääääääääää", "x", None)));
    assert!(item_dated(&item("web", "x", Some("2024-01-15T10:00:00Z"))));
    assert!(!item_dated(&item("web", "x", Some("9223372036854775807-01-15T10:00:00Z"))));
    let mut s = viewer(&[]);
    assert!(!s.try_push_log(item("ääääääääää", "x", None)));
    assert_eq!((s.logs.len(), s.visible_indices.len()), (1, 1));
    assert!(!s.can_measure(0));
}

#[test]
fn a_line_away_from_the_cursor_need_not_be_measured() {
    let mut s = viewer(&["one", "two"]);
    s.move_to_top();
    assert!(s.try_push_log(item("ääääääääää", "x", None)));
    assert!(s.can_measure(1) && !s.can_measure(2));
    assert!(s.can_move_down(1) && !s.can_move_down(2) && !s.can_move_to_bottom());
    assert!(!s.can_measure_all());
    s.move_down(1);
    assert_eq!((s.cursor_row, s.visible_count()), (1, 3));
    s.toggle_visual_mode(VisualMode::Line);
    assert!(s.can_copy());
    assert_eq!(s.get_selected_text(), Some("[web] two".to_string()));
    s.visual_anchor = Some((2, 0));
    assert!(!s.can_copy());
}

#[test]
fn a_date_that_is_not_looked_at_may_be_out_of_range() {
    let far = "9223372036854775807-01-15T10:00:00Z";
    let mut s = viewer(&[]);
    assert!(!s.try_push_log(item("web", "far", Some(far))));
    assert!(!s.can_tell_time());
    let mut s = viewer(&[]);
    assert!(s.try_push_log(item("web", "near", Some("9999-01-15T10:00:00Z"))));
    s.logs.push_front(item("web", "far", Some(far)));
    assert!(s.can_tell_time());
    assert_eq!(s.reference_timestamp_secs(), 253372010400);
}

#[test]
fn places_on_the_screen() {
    let s = viewer(&["one", "two"]);
    assert!(s.is_screen_coords_on_tag(2, 0));
    assert!(!s.is_screen_coords_on_tag(8, 0));
    assert_eq!(s.screen_coords_to_char_pos(8, 1), (1, 8));
    assert_eq!(s.screen_coords_to_char_pos(2, 0), (0, 0));
    assert_eq!(s.screen_coords_to_char_pos(100, 0), (0, 9));
}

#[test]
fn dragging_to_the_edge_scrolls() {
    let lines: Vec<String> = (0..30).map(|i| format!("line {}", i)).collect();
    let refs: Vec<&str> = lines.iter().map(|s| s.as_str()).collect();
    let mut s = viewer(&refs);
    s.move_to_top();
    assert!(!s.trigger_mouse_auto_scroll());
    assert_eq!(s.try_auto_scroll(), Some(false));
    s.toggle_visual_mode(VisualMode::Character);
    s.is_mouse_dragging = true;
    s.last_mouse_pos = Some((10, 3));
    assert!(s.trigger_mouse_auto_scroll());
    assert!(s.cursor_row > 0);
}

#[test]
fn a_notice_is_set() {
    let mut s = viewer(&[]);
    s.set_copied_notification();
    assert_eq!(s.clipboard_notice.unwrap().0, "Copied to clipboard");
}

#[test]
fn lines_are_looked_for_in_any_letter_case() {
    let s = viewer(&["One", "two", "bone"]);
    let req = QueryFilterReq { query: "ONE".to_string() };
    assert_eq!(QueryFilterWorker::handle(&req, &s.logs).matched_indices, vec![0, 2]);
    let req = QueryFilterReq { query: "WEB".to_string() };
    assert_eq!(QueryFilterWorker::handle(&req, &s.logs).matched_indices, vec![0, 1, 2]);
}
