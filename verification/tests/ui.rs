//! What stands on the screen.

use ocklog::cli::CommonArgs;
use ocklog::colors::{
    compute_neutral_active_line_style, compute_neutral_selection_style, TerminalColorMode, TerminalPalette,
};
use ocklog::config::theme::Color;
use ocklog::config::{clear_registry, UiTheme};
use ocklog::logitem::LogItem;
use ocklog::service::ContainerFilterOption;
use ocklog::state::{AppState, PromptMode, VisualMode};
use ocklog::style::{Emphasis, RatColor, Style};
use ocklog::ui::menu::place_menu;
use ocklog::ui::prompt::{colorize_filter_query, try_colorize};
use ocklog::ui::row::get_service_color;
use ocklog::ui::screen::{notice_shown, render_clipboard_popup};
use ocklog::ui::status::{format_age, format_length, format_span, format_time_hh_mm, format_time_hh_mm_ss};
use ocklog::ui::wrapped::push_styled_slice_with_sel;
use ocklog::ui::{Area, Span};

fn area(x: u16, y: u16, width: u16, height: u16) -> Area {
    Area { x, y, width, height }
}

fn text(line: &Vec<Span>) -> String {
    line.iter().map(|s| s.text.clone()).collect()
}

fn option(name: &str, enabled: bool) -> ContainerFilterOption {
    ContainerFilterOption {
        id: format!("id-{}", name),
        name: name.to_string(),
        enabled,
        is_running: true,
        has_error: false,
    }
}

fn item(message: &str, system: bool) -> LogItem {
    LogItem::new(
        "web".to_string(),
        message.to_string(),
        None,
        Some("2024-01-15T10:30:45.000000000Z".to_string()),
        system,
    )
}

fn viewer(lines: &[&str]) -> AppState {
    let mut s = AppState::new(100);
    s.viewport_width = 20;
    s.viewport_height = 4;
    s.service_options.push(option("web", true));
    for l in lines {
        assert!(s.try_push_log(item(l, false)));
    }
    s.move_to_top();
    s
}

fn pane(s: &mut AppState, a: Area) -> (Vec<Vec<Span>>, Option<(u16, u16)>) {
    let p = s.render_logs(&a, &UiTheme::default(), &TerminalColorMode::Indexed, true).unwrap();
    (p.lines, p.cursor)
}

#[test]
fn themes_and_arguments_have_defaults() {
    clear_registry();
    let t = UiTheme::default();
    assert_eq!(t.bg, Color::Reset);
    assert_eq!(t.selection_bg, Color::Rgb(40, 75, 125));
    assert_eq!(Color::Ansi256(7).to_ratatui(), RatColor::Indexed(7));
    assert_eq!(Color::Fg.to_ratatui(), RatColor::White);
    assert_eq!(Color::Bg.to_ratatui(), RatColor::Reset);
    let c = CommonArgs::default();
    assert!(!c.log_enable && c.log_save_path.is_none());
}

#[test]
fn styles_follow_the_background() {
    let dark = TerminalColorMode::TrueColor(TerminalPalette { bg: Some((10, 20, 250)) });
    assert_eq!(
        compute_neutral_selection_style(&dark, true),
        Style::plain().bg(RatColor::Rgb(45, 55, 255)).fg(RatColor::Rgb(255, 255, 255)).with(Emphasis::bold())
    );
    assert_eq!(
        compute_neutral_active_line_style(&dark, false),
        Style::plain().bg(RatColor::Rgb(0, 0, 0))
    );
    assert_eq!(
        compute_neutral_active_line_style(&TerminalColorMode::Indexed, true),
        Style::plain().bg(RatColor::Indexed(236))
    );
    assert_eq!(
        compute_neutral_selection_style(&TerminalColorMode::Indexed, true),
        Style::plain().with(Emphasis::reversed().union(Emphasis::bold()))
    );
}

#[test]
fn services_have_colours() {
    // 5381 leaves 1 over tens; "a" gives 5381 * 33 + 97, which leaves 0.
    assert_eq!(get_service_color(""), RatColor::LightCyan);
    assert_eq!(get_service_color("a"), RatColor::Cyan);
    assert_eq!(get_service_color("b"), RatColor::LightCyan);
}

#[test]
fn a_selection_splits_text() {
    let mut line: Vec<Span> = Vec::new();
    let sel = Style::plain().bg(RatColor::Red);
    push_styled_slice_with_sel(&mut line, "abcdef", 10, Some((12, 13)), Style::plain(), sel);
    let texts: Vec<String> = line.iter().map(|s| s.text.clone()).collect();
    assert_eq!(texts, vec!["ab".to_string(), "cd".to_string(), "ef".to_string()]);
    assert_eq!(line[1].style, sel);
    let mut line: Vec<Span> = Vec::new();
    push_styled_slice_with_sel(&mut line, "abc", 10, Some((14, 13)), Style::plain(), sel);
    assert_eq!(line.len(), 1);
    push_styled_slice_with_sel(&mut line, "", 10, None, Style::plain(), sel);
    assert_eq!(line.len(), 1);
}

#[test]
fn cut_lines_are_drawn() {
    let mut s = viewer(&["short", "a line that is far too long"]);
    let (lines, cursor) = pane(&mut s, area(0, 0, 20, 4));
    assert_eq!(lines.len(), 2);
    assert_eq!(text(&lines[0]), "[web] short         ");
    assert_eq!(text(&lines[1]), "[web] a line that i…");
    assert_eq!(lines[1][0].text, "[web] ");
    assert_eq!(cursor, Some((0, 0)));
    s.move_down(1);
    s.move_right(40);
    let (lines, _) = pane(&mut s, area(0, 0, 20, 4));
    assert!(text(&lines[1]).starts_with("[web] …"));
    assert!(text(&lines[1]).trim_end().ends_with("long"));
}

#[test]
fn the_cursor_is_kept_off_the_log_while_typing() {
    let mut s = viewer(&["short"]);
    s.prompt_mode = PromptMode::Filter;
    assert_eq!(pane(&mut s, area(0, 0, 20, 4)).1, None);
    s.prompt_mode = PromptMode::Off;
    s.show_service_menu = true;
    assert_eq!(pane(&mut s, area(0, 0, 20, 4)).1, None);
}

#[test]
fn wrapped_lines_are_drawn() {
    let mut s = viewer(&["abcdefghijklmnop", "x"]);
    s.toggle_line_fold();
    let (lines, cursor) = pane(&mut s, area(2, 1, 20, 3));
    assert_eq!(lines.len(), 3);
    assert_eq!(text(&lines[0]), "[web] abcdefghijkl ↵");
    assert_eq!(text(&lines[1]), "      mnop          ");
    assert_eq!(text(&lines[2]), "[web] x             ");
    assert_eq!(cursor, Some((2, 1)));
    s.move_right(19);
    let (_, cursor) = pane(&mut s, area(2, 1, 20, 3));
    assert_eq!(cursor, Some((2 + 6 + 1, 2)));
    let (lines, _) = pane(&mut s, area(0, 0, 20, 1));
    assert_eq!(lines.len(), 1);
}

#[test]
fn marked_and_left_out_lines_are_set_off() {
    let mut s = viewer(&["one", "two"]);
    s.toggle_current_line();
    s.move_to_top();
    s.prompt_mode = PromptMode::Filter;
    s.input_buffer = "'two'".to_string();
    assert!(s.try_update_live_filter());
    let (lines, _) = pane(&mut s, area(0, 0, 20, 4));
    assert_eq!(lines[0][0].text, "✔ ");
    assert_eq!(lines[0][1].style.fg, Some(RatColor::DarkGray));
    assert_eq!(lines[1][0].style.fg, Some(get_service_color("web")));
}

#[test]
fn selected_text_is_set_off() {
    let mut s = viewer(&["one"]);
    s.move_right(7);
    s.toggle_visual_mode(VisualMode::Character);
    let (lines, _) = pane(&mut s, area(0, 0, 20, 4));
    let sel = Style::plain().with(Emphasis::reversed().union(Emphasis::bold()));
    let texts: Vec<String> = lines[0].iter().map(|s| s.text.clone()).collect();
    assert_eq!(texts, vec!["[web] ".to_string(), "o".to_string(), "n".to_string(), "e".to_string()]);
    assert_eq!(lines[0][2].style, sel);
    assert_ne!(lines[0][1].style, sel);
    assert_eq!(s.get_line_selection_col_range(0, 9), Some((7, 7)));
    assert_eq!(s.get_line_selection_col_range(1, 9), None);
}

#[test]
fn lines_of_the_viewers_own_have_no_tag() {
    let mut s = viewer(&[]);
    assert!(s.try_push_log(item("[web - DIE - exit code: 1]", true)));
    assert!(s.try_push_log(item("[web - START]", true)));
    let (lines, _) = pane(&mut s, area(0, 0, 60, 4));
    assert!(text(&lines[0]).starts_with("[web - DIE - exit code: 1]"));
    assert_eq!(lines[0][0].style.fg, Some(RatColor::Red));
    assert_eq!(lines[1][0].style.fg, Some(RatColor::Green));
}

#[test]
fn a_tag_that_cannot_be_cut_is_not_drawn() {
    let mut s = viewer(&[]);
    let mut line = item("boom", true);
    line.service = "ääääääääää".to_string();
    s.service_options.push(option("ääääääääää", true));
    assert!(s.try_push_log(line));
    assert!(!s.can_draw_pane(0));
    let none = s.render_logs(&area(0, 0, 20, 4), &UiTheme::default(), &TerminalColorMode::Indexed, true);
    assert!(none.is_none());
}

#[test]
fn times_are_shown() {
    assert_eq!(format_time_hh_mm("2024-01-15T10:30:45.5Z"), Some("10:30".to_string()));
    assert_eq!(format_time_hh_mm_ss("2024-01-15T10:30:45.5Z"), Some("10:30:45".to_string()));
    assert_eq!(format_time_hh_mm("2024-01-15 10:30"), Some("10:30".to_string()));
    assert_eq!(format_time_hh_mm("2024-01-15"), None);
    assert_eq!(format_length(59), "59s");
    assert_eq!(format_length(3599), "59m");
    assert_eq!(format_length(7200), "2h");
    assert_eq!(format_length(7260), "2h 1m");
    assert_eq!(format_length(90000), "1d 1h");
    assert_eq!(format_age(59), "59s");
    assert_eq!(format_age(7260), "2h");
    assert_eq!(format_age(90000), "1d");
    assert_eq!(
        format_span("2024-01-15T10:30:45Z", "2024-01-15T10:31:00Z"),
        "\u{f13ab} 10:30:45 → 10:31:00 (15s)  "
    );
    assert_eq!(
        format_span("2024-01-15T12:30:45Z", "2024-01-15T10:31:00Z"),
        "\u{f13ab} 12:30 → 10:31 (1h 59m)  "
    );
}

#[test]
fn the_bar_tells_time_and_place() {
    let mut s = viewer(&["one", "two"]);
    let bar = s.status_bar_at(&area(0, 9, 80, 1), &UiTheme::default(), 1705314645 + 90);
    assert_eq!(text(&bar.right), "\u{f144e} 1m    1:1 / 2 ");
    assert_eq!(bar.right_area, area(80 - 16, 9, 16, 1));
    assert_eq!(bar.left_area, area(0, 9, 64, 1));
    assert_eq!(text(&bar.left), "C-s services  C-f filter  z unfold  ? help   ");
    s.prompt_mode = PromptMode::Filter;
    s.toggle_visual_mode(VisualMode::Line);
    let bar = s.status_bar_at(&area(0, 9, 80, 1), &UiTheme::default(), 0);
    assert!(text(&bar.left).starts_with("hints: \"err\""));
    assert!(text(&bar.right).starts_with("\u{f13ab} 10:30:45 → 10:30:45 (0s)  "));
    let bar = s.render_status_bar(&area(0, 9, 80, 1), &UiTheme::default());
    assert_eq!(bar.right.len(), 2);
}

#[test]
fn filters_are_coloured() {
    let line = colorize_filter_query("s'a|b' and not x | since 5m all 12");
    assert_eq!(text(&line), "s'a|b' and not x | since 5m all 12");
    assert_eq!(line[0].text, "s'a|b'");
    assert_eq!(line[0].style, Style::plain().fg(RatColor::Green).with(Emphasis::bold()));
    assert_eq!(line[2].style, Style::plain().fg(RatColor::LightRed).with(Emphasis::bold()));
    assert_eq!(line[4].style, Style::plain().fg(RatColor::Red).with(Emphasis::bold()));
    assert_eq!(line[6].style.fg, Some(RatColor::Red));
    assert!(line[6].style.on.underlined);
    assert_eq!(line[8].text, "|");
    assert_eq!(line[10].style.fg, Some(RatColor::LightCyan));
    assert_eq!(line[12].style, Style::plain().fg(RatColor::White));
    assert_eq!(line[14].style, Style::plain().fg(RatColor::White));
    assert_eq!(line[16].style, Style::plain().fg(RatColor::White));
    assert_eq!(text(&colorize_filter_query("a\tb")), "a b");
    assert_eq!(colorize_filter_query("sr`x\\`y` z")[0].text, "sr`x\\`y`");
    assert!(try_colorize("18446744073709551615d").is_none());
    assert!(try_colorize("'18446744073709551615d'").is_some());
}

#[test]
fn the_line_shows_the_filter() {
    let mut s = viewer(&[]);
    let a = area(1, 9, 40, 1);
    assert!(s.try_command_line(&a).unwrap().is_none());
    s.active_filter_str = Some("'a'".to_string());
    let line = s.render_command_line(&a).unwrap();
    assert_eq!(text(&line.spans), "filter: 'a'");
    assert_eq!(line.spans[0].style.fg, Some(RatColor::Yellow));
    assert_eq!(line.cursor, None);
    s.active_filter_str = Some("a".to_string());
    let line = s.render_command_line(&a).unwrap();
    assert_eq!(text(&line.spans), "filter: [invalid: a]");
    s.prompt_mode = PromptMode::Filter;
    s.input_buffer = "'日'".to_string();
    s.filter_cursor_col = 2;
    let line = s.try_command_line(&a).unwrap().unwrap();
    assert_eq!(text(&line.spans), "filter: '日'");
    assert_eq!(line.cursor, Some((1 + 8 + 3, 9)));
    s.input_buffer = "18446744073709551615d".to_string();
    assert!(s.try_command_line(&a).is_none());
}

#[test]
fn the_menu_lists_services() {
    let mut s = viewer(&[]);
    s.service_options.push(option("a-service-with-a-long-name", false));
    s.service_options[1].has_error = true;
    s.show_service_menu = true;
    s.service_menu_selected_idx = 1;
    let parts = vec![area(1, 1, 20, 5), area(1, 6, 20, 1)];
    let m = s.render_service_menu(&parts, &UiTheme::default()).unwrap();
    assert!(!m.centered);
    assert_eq!(m.rows.len(), 2);
    assert_eq!(text(&m.rows[0]), "✔ web              ●");
    assert_eq!(text(&m.rows[1]), "  a-service-with-… ●");
    assert_eq!(m.rows[1][3].style.fg, Some(RatColor::Red));
    assert_eq!(m.rows[1][1].style.bg, Some(RatColor::DarkGray));
    assert_eq!(text(&m.footer), "C-x Unselect all  C-a Select all");
    assert!(m.search.is_none());
}

#[test]
fn the_menu_scrolls_to_the_selected_service() {
    let mut s = viewer(&[]);
    for i in 0..20 {
        s.service_options.push(option(&format!("svc{}", i), true));
    }
    for selected in [15, 3, 20, 0] {
        s.service_menu_selected_idx = selected;
        s.render_service_menu(&vec![area(1, 1, 20, 5), area(1, 6, 20, 1)], &UiTheme::default()).unwrap();
        assert!(s.service_menu_scroll <= selected && selected < s.service_menu_scroll + 5);
    }
}

#[test]
fn the_menu_is_searched() {
    let mut s = viewer(&[]);
    s.show_service_search = true;
    s.service_search_query = "none".to_string();
    let parts = vec![area(1, 1, 20, 5), area(1, 6, 20, 1), area(1, 7, 20, 2)];
    let m = s.render_service_menu(&parts, &UiTheme::default()).unwrap();
    assert!(m.centered);
    assert_eq!(m.rows.len(), 3);
    assert_eq!(text(&m.rows[2]), "No results");
    let search = m.search.unwrap();
    assert_eq!(text(&search.spans), "Search: none");
    assert_eq!(search.cursor, (1 + 8 + 4, 8));
}

#[test]
fn a_name_that_cannot_be_cut_is_not_listed() {
    let mut s = viewer(&[]);
    assert!(s.render_service_menu(&vec![area(1, 1, 4, 5), area(1, 6, 4, 1)], &UiTheme::default()).is_none());
}

#[test]
fn places_of_the_menu_and_the_notice() {
    assert_eq!(place_menu(&area(0, 0, 80, 24)), area(0, 10, 46, 14));
    assert_eq!(place_menu(&area(2, 1, 20, 5)), area(2, 1, 20, 5));
    assert_eq!(area(0, 10, 46, 14).inner(), area(1, 11, 44, 12));
    assert_eq!(area(5, 5, 1, 1).inner(), area(6, 6, 0, 0));
    let p = render_clipboard_popup(&area(0, 0, 80, 24), "Copied");
    assert_eq!(p.area, area(80 - 11, 1, 10, 3));
    assert_eq!(text(&p.spans), "Copied");
    let p = render_clipboard_popup(&area(0, 0, 8, 24), "Copied");
    assert_eq!(p.area.width, 6);
}

#[test]
fn a_notice_stands_for_two_seconds() {
    assert!(notice_shown(0));
    assert!(notice_shown(1999));
    assert!(!notice_shown(2000));
    assert!(!notice_shown(u128::MAX));
}

#[test]
fn a_low_screen_is_shared_out() {
    let mut s = viewer(&["one"]);
    let theme = UiTheme::default();
    let (parts, menu, _) = s.render(&area(3, 5, 40, 3), &theme, &TerminalColorMode::Indexed, true, false);
    assert_eq!(parts, vec![area(3, 5, 40, 1), area(3, 6, 40, 1), area(3, 7, 40, 1)]);
    assert!(menu.is_empty());
    let (parts, _, _) = s.render(&area(0, 65000, 40, 535), &theme, &TerminalColorMode::Indexed, true, false);
    assert_eq!(parts, vec![area(0, 65000, 40, 533), area(0, 65533, 40, 1), area(0, 65534, 40, 1)]);
    for height in 0..3 {
        let (parts, _, _) = s.render(&area(0, 5, 40, height), &theme, &TerminalColorMode::Indexed, true, false);
        for p in &parts {
            assert!(5 <= p.y && p.y + p.height <= 5 + height);
        }
    }
    s.show_service_menu = true;
    let (_, menu, _) = s.render(&area(0, 0, 80, 6), &theme, &TerminalColorMode::Indexed, true, false);
    assert_eq!(menu, vec![area(1, 1, 44, 1), area(1, 2, 44, 1)]);
}

#[test]
fn the_screen_is_shared_out() {
    let mut s = viewer(&["one"]);
    s.set_copied_notification();
    let (parts, menu, screen) =
        s.render(&area(0, 0, 80, 24), &UiTheme::default(), &TerminalColorMode::Indexed, true, true);
    assert_eq!(parts, vec![area(0, 0, 80, 22), area(0, 22, 80, 1), area(0, 23, 80, 1)]);
    assert!(menu.is_empty());
    let screen = screen.unwrap();
    assert!(screen.menu.is_none() && screen.popup.is_some() && screen.line.is_none());
    assert_eq!(screen.cursor, Some((0, 0)));
    assert_eq!((s.viewport_width, s.viewport_height), (80, 22));
    s.show_service_menu = true;
    s.show_service_search = true;
    let (_, menu, screen) =
        s.render(&area(0, 0, 80, 24), &UiTheme::default(), &TerminalColorMode::Indexed, true, false);
    assert_eq!(menu, vec![area(1, 9, 44, 9), area(1, 18, 44, 1), area(1, 19, 44, 2)]);
    let screen = screen.unwrap();
    assert!(screen.menu.is_some() && screen.popup.is_none());
    assert_eq!(screen.cursor, Some((9, 20)));
}
