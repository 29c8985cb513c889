//! The viewer's state: the lines, what is visible of them, the cursor, the
//! selection, the service menu and the filter.

pub mod copying;
pub mod feed;
pub mod fits;
pub mod laws;
pub mod motion;
pub mod moves;
pub mod screen;
pub mod select;
pub mod view;

pub use self::view::{PromptMode, VisualMode};
pub use crate::logitem::{truncate_service, LogItem};
pub use crate::service::ContainerFilterOption;
pub use crate::wrap::{
    char_at_display_width, char_display_width, get_log_visual_chunks, get_unfolded_content_width,
    str_display_width_up_to, visual_lines_for_log, VisualChunk,
};

use self::view::StateView;
use crate::logitem::{self, LogView};
use crate::query::{self, pipeline, Query, QueryView};
use crate::service;
use crate::wrap;
use std::collections::{HashSet, VecDeque};
use vstd::prelude::*;

verus! {

#[verifier::external_type_specification]
#[verifier::external_body]
pub struct ExInstant(std::time::Instant);

/// `std::time::Instant::now`: the current point in time, of which nothing is known.
#[verifier::external_body]
fn clock() -> (r: std::time::Instant) {
    std::time::Instant::now()
}

/// The state of the viewer.
pub struct AppState {
    pub logs: VecDeque<LogItem>,
    pub max_capacity: usize,
    pub scroll_offset: usize,
    pub scrolloff: usize,
    pub cursor_row: usize,
    pub cursor_col: usize,
    pub viewport_height: usize,
    pub viewport_width: usize,
    pub h_scroll: usize,
    pub h_scrolloff: usize,
    pub line_fold: bool,
    pub visual_mode: VisualMode,
    pub visual_anchor: Option<(usize, usize)>,
    pub is_mouse_dragging: bool,
    pub last_mouse_pos: Option<(u16, u16)>,
    pub toggled_lines: HashSet<usize>,
    pub sticky: bool,
    pub show_service_menu: bool,
    pub show_service_search: bool,
    pub service_options: Vec<ContainerFilterOption>,
    pub service_menu_selected_idx: usize,
    pub service_menu_scroll: usize,
    pub service_search_query: String,
    pub prompt_mode: PromptMode,
    pub input_buffer: String,
    pub filter_cursor_col: usize,
    pub filter_ast: Option<Query>,
    pub active_filter_str: Option<String>,
    pub live_filter_ast: Option<Query>,
    pub visible_indices: Vec<usize>,
    pub synthetic_logs: Option<Vec<LogItem>>,
    pub clipboard_notice: Option<(String, std::time::Instant)>,
    pub status_message: Option<String>,
}

/// What an optional query holds.
pub open spec fn opt_query(o: Option<Query>) -> Option<QueryView> {
    match o {
        Some(q) => Some(q@),
        None => None,
    }
}

/// The words of a notice.
pub open spec fn notice_view(o: Option<(String, std::time::Instant)>) -> Option<Seq<char>> {
    match o {
        Some(n) => Some(n.0@),
        None => None,
    }
}

impl View for AppState {
    type V = StateView;

    open spec fn view(&self) -> StateView {
        StateView {
            logs: pipeline::deque_view(self.logs),
            max_capacity: self.max_capacity as int,
            scroll_offset: self.scroll_offset as int,
            scrolloff: self.scrolloff as int,
            cursor_row: self.cursor_row as int,
            cursor_col: self.cursor_col as int,
            viewport_height: self.viewport_height as int,
            viewport_width: self.viewport_width as int,
            h_scroll: self.h_scroll as int,
            h_scrolloff: self.h_scrolloff as int,
            line_fold: self.line_fold,
            visual_mode: self.visual_mode,
            visual_anchor: self.visual_anchor,
            is_mouse_dragging: self.is_mouse_dragging,
            last_mouse_pos: self.last_mouse_pos,
            toggled_lines: self.toggled_lines@,
            sticky: self.sticky,
            show_service_menu: self.show_service_menu,
            show_service_search: self.show_service_search,
            service_options: service::services_view(self.service_options@),
            service_menu_selected_idx: self.service_menu_selected_idx as int,
            service_menu_scroll: self.service_menu_scroll as int,
            service_search_query: self.service_search_query@,
            prompt_mode: self.prompt_mode,
            input_buffer: self.input_buffer@,
            filter_cursor_col: self.filter_cursor_col as int,
            filter_ast: opt_query(self.filter_ast),
            active_filter_str: logitem::opt_view(self.active_filter_str),
            live_filter_ast: opt_query(self.live_filter_ast),
            visible_indices: self.visible_indices@,
            synthetic_logs: query::opt_logs(self.synthetic_logs),
            clipboard_notice: notice_view(self.clipboard_notice),
            status_message: logitem::opt_view(self.status_message),
        }
    }
}

/// A line that can be shown has a length that is a machine number.
pub proof fn lemma_showable(log: LogView)
    requires
        view::showable(log),
    ensures
        log.prefix_len() + log.content.len() == log.full_line().len(),
        log.prefix_len() + log.content.len() < usize::MAX,
{
}

impl AppState {
    pub fn new(capacity: usize) -> (r: AppState)
        ensures
            r@ == StateView::initial(capacity as int),
    {
        let r = AppState {
            logs: VecDeque::new(),
            max_capacity: capacity,
            scroll_offset: 0,
            scrolloff: 6,
            cursor_row: 0,
            cursor_col: 0,
            viewport_height: 1,
            viewport_width: 1,
            h_scroll: 0,
            h_scrolloff: 2,
            line_fold: true,
            visual_mode: VisualMode::Off,
            visual_anchor: None,
            is_mouse_dragging: false,
            last_mouse_pos: None,
            toggled_lines: HashSet::new(),
            sticky: true,
            show_service_menu: false,
            show_service_search: false,
            service_options: Vec::new(),
            service_menu_selected_idx: 0,
            service_menu_scroll: 0,
            service_search_query: String::new(),
            prompt_mode: PromptMode::Off,
            input_buffer: String::new(),
            filter_cursor_col: 0,
            filter_ast: None,
            active_filter_str: None,
            live_filter_ast: None,
            visible_indices: Vec::new(),
            synthetic_logs: None,
            clipboard_notice: None,
            status_message: None,
        };
        assert(r@ =~= StateView::initial(capacity as int));
        r
    }

    pub fn set_copied_notification(&mut self)
        ensures
            final(self)@ == (StateView { clipboard_notice: Some("Copied to clipboard"@), ..old(self)@ }),
    {
        self.clipboard_notice = Some(("Copied to clipboard".to_owned(), clock()));
    }

    pub fn visible_count(&self) -> (r: usize)
        ensures
            r == self@.visible_count(),
    {
        match &self.synthetic_logs {
            Some(s) => s.len(),
            None => self.visible_indices.len(),
        }
    }

    pub fn get_visible_log(&self, visible_row: usize) -> (r: Option<&LogItem>)
        ensures
            r matches Some(l) ==> self@.visible_log(visible_row as int) == Some(l@),
            r is None ==> self@.visible_log(visible_row as int) is None,
    {
        match &self.synthetic_logs {
            Some(s) => {
                if visible_row < s.len() {
                    assert(logitem::logs_view(s@)[visible_row as int] == s@[visible_row as int]@);
                    Some(&s[visible_row])
                } else {
                    None
                }
            },
            None => {
                if visible_row < self.visible_indices.len() {
                    let idx: usize = self.visible_indices[visible_row];
                    if idx < self.logs.len() {
                        assert(self@.logs[idx as int] == self.logs@[idx as int]@);
                        Some(&self.logs[idx])
                    } else {
                        None
                    }
                } else {
                    None
                }
            },
        }
    }

    /// Whether the line in a visible row is marked.
    pub fn is_row_toggled(&self, row: usize) -> (r: bool)
        ensures
            r == self@.row_toggled(row as int),
    {
        broadcast use vstd::std_specs::hash::group_hash_axioms;

        if row < self.visible_indices.len() {
            self.toggled_lines.contains(&self.visible_indices[row])
        } else {
            false
        }
    }

    /// The length of the tag in a visible row.
    pub(crate) fn prefix_at(&self, row: usize) -> (r: usize)
        requires
            self@.fits_at(row as int),
        ensures
            r == self@.prefix_at(row as int),
    {
        match self.get_visible_log(row) {
            Some(l) => l.prefix_len(),
            None => 0,
        }
    }

    /// The rows of the screen that a visible row takes up when lines are wrapped.
    pub(crate) fn height_of(&self, row: usize) -> (r: usize)
        requires
            self@.fits_at(row as int),
        ensures
            r == self@.height_of(row as int),
    {
        match self.get_visible_log(row) {
            Some(l) => {
                let w: usize = get_unfolded_content_width(self.viewport_width, l.prefix_len());
                proof {
                    lemma_showable(l@);
                    wrap::law_rows_are_chunks(l@.content, w as int);
                }
                visual_lines_for_log(l, w)
            },
            None => 0,
        }
    }

    /// The rows of the screen that the visible rows from `a` to before `b` take up.
    pub(crate) fn height_between(&self, a: usize, b: usize) -> (r: u128)
        requires
            self@.fit_between(a as int, b as int),
        ensures
            r == self@.height_between(a as int, b as int),
            r <= b * 0xffff_ffff_ffff_ffff,
    {
        if a >= b {
            assert(0 <= b * 0xffff_ffff_ffff_ffff);
            return 0;
        }
        let mut total: u128 = 0;
        let mut i: usize = a;
        while i < b
            invariant
                a <= i <= b,
                self@.fit_between(a as int, b as int),
                total == self@.height_between(a as int, i as int),
                total <= i * 0xffff_ffff_ffff_ffff,
            decreases b - i,
        {
            assert(self@.fits_at(i as int));
            let h: usize = self.height_of(i);
            assert(i * 0xffff_ffff_ffff_ffff + 0xffff_ffff_ffff_ffff == (i + 1) * 0xffff_ffff_ffff_ffff);
            assert((i + 1) * 0xffff_ffff_ffff_ffff <= 0xffff_ffff_ffff_ffff * 0xffff_ffff_ffff_ffff);
            total = total + h as u128;
            i += 1;
        }
        total
    }

    pub fn current_line_len(&self) -> (r: usize)
        requires
            self@.fits_at(self.cursor_row as int),
        ensures
            r == self@.line_len(),
    {
        match self.get_visible_log(self.cursor_row) {
            Some(l) => l.full_line_text().as_str().unicode_len(),
            None => 0,
        }
    }

    pub fn max_line_len(&self) -> (r: usize)
        requires
            self@.all_fit(),
            self.viewport_width * 3 <= usize::MAX,
        ensures
            r == self@.max_line(),
    {
        let mut m: usize = 0;
        let mut i: usize = 0;
        while i < self.logs.len()
            invariant
                i <= self.logs@.len(),
                view::all_showable(self@.logs),
                m == view::longest_line(self@.logs, i as int),
            decreases self.logs@.len() - i,
        {
            assert(self@.logs[i as int] == self.logs@[i as int]@);
            let n: usize = self.logs[i].full_line_text().as_str().unicode_len();
            if n > m {
                m = n;
            }
            i += 1;
        }
        if self.viewport_width * 3 > m {
            self.viewport_width * 3
        } else {
            m
        }
    }

    pub fn max_content_len(&self) -> (r: usize)
        ensures
            r == self@.max_content(),
    {
        let mut m: usize = 0;
        let mut i: usize = 0;
        while i < self.logs.len()
            invariant
                i <= self.logs@.len(),
                m == view::longest_content(self@.logs, i as int),
            decreases self.logs@.len() - i,
        {
            assert(self@.logs[i as int] == self.logs@[i as int]@);
            let n: usize = self.logs[i].content.as_str().unicode_len();
            if n > m {
                m = n;
            }
            i += 1;
        }
        m
    }

    pub fn current_line_content_end_col(&self) -> (r: usize)
        requires
            self@.fits_at(self.cursor_row as int),
        ensures
            r == self@.end_col(),
    {
        match self.get_visible_log(self.cursor_row) {
            Some(l) => {
                proof {
                    lemma_showable(l@);
                }
                l.prefix_len() + l.content.as_str().unicode_len().saturating_sub(1)
            },
            None => 0,
        }
    }

    pub fn viewport_content_window_width(&self) -> (r: usize)
        requires
            self@.fits_at(self.cursor_row as int),
        ensures
            r == self@.window_width(),
    {
        let w: usize = self.viewport_width.saturating_sub(self.prefix_at(self.cursor_row)).saturating_sub(2);
        if w < 1 {
            1
        } else {
            w
        }
    }
}

} // verus!
