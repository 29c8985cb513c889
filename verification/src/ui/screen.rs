//! The whole screen.

use super::area::{self, stack, Area};
use super::menu::{self, place_menu, Menu};
use super::pane::{self, Pane};
use super::prompt::{self, CommandLine};
use super::row::Pens;
use super::span::{self, put, Span};
use super::status::{self, StatusBar};
use crate::ansi::Piece;
use crate::arith;
use crate::colors::{compute_neutral_active_line_style, compute_neutral_selection_style, TerminalColorMode};
use crate::config::theme::UiTheme;
use crate::state::feed::wall_clock_secs;
use crate::state::view::{PromptMode, StateView};
use crate::state::AppState;
use crate::style::{Emphasis, RatColor, Style};
use vstd::prelude::*;

verus! {

// ---------------------------------------------------------------------------
// The notice
// ---------------------------------------------------------------------------

/// A notice in the upper right of the log pane.
pub struct Popup {
    pub area: Area,
    pub spans: Vec<Span>,
}

/// The part of the screen that a notice of `n` characters takes up.
pub open spec fn popup_area(parent: Area, n: int) -> Area {
    let width = arith::lesser(pane::coordinate(n) + 4, arith::less(parent.width as int, 2));
    Area {
        x: arith::less(parent.end_x(), width + 1) as u16,
        y: area::capped(parent.y as int, 1) as u16,
        width: width as u16,
        height: 3,
    }
}

/// What stands in a notice.
pub open spec fn popup_line(msg: Seq<char>) -> Seq<Piece> {
    seq![span::styled(msg, Style::plain().fg(RatColor::White).with(Emphasis::bold()))]
}

/// Whether a notice still stands, so many milliseconds after it was put up.
pub fn notice_shown(elapsed_ms: u128) -> (r: bool)
    ensures
        r == (elapsed_ms < 2000),
{
    elapsed_ms < 2000
}

pub fn render_clipboard_popup(parent: &Area, msg: &str) -> (r: Popup)
    ensures
        r.area == popup_area(*parent, msg@.len() as int),
        span::spans_view(r.spans@) == popup_line(msg@),
{
    let n: usize = msg.unicode_len();
    let wanted: usize = n % 65536 + 4;
    let room: usize = parent.width.saturating_sub(2) as usize;
    let width: u16 = if wanted <= room {
        wanted as u16
    } else {
        room as u16
    };
    let area = Area {
        x: parent.right().saturating_sub(width + 1),
        y: parent.y.saturating_add(1),
        width,
        height: 3,
    };
    let mut spans: Vec<Span> = Vec::new();
    put(&mut spans, msg.to_owned(), Style::plain().fg(RatColor::White).with(Emphasis::bold()));
    assert(span::spans_view(spans@) =~= popup_line(msg@));
    Popup { area, spans }
}

// ---------------------------------------------------------------------------
// The screen
// ---------------------------------------------------------------------------

/// What stands on the screen: the log pane, the bar, the line that a filter is
/// typed on, the menu and a notice, and the cursor where it is shown.
pub struct Screen {
    pub pane: Pane,
    pub bar: StatusBar,
    pub line: Option<CommandLine>,
    pub menu: Option<Menu>,
    pub popup: Option<Popup>,
    pub cursor: Option<(u16, u16)>,
}

/// The points in time that a screen is drawn for.
#[derive(Clone, Copy)]
pub struct Times {
    /// That which the conditions of the filter being typed are counted from.
    pub filter: u64,
    /// That which the age of the line under the cursor is counted from.
    pub age: u64,
}

impl StateView {
    /// The state once the screen has been drawn on the given areas.
    pub open spec fn drawn(self, parts: Seq<Area>, menu_parts: Seq<Area>) -> StateView {
        if self.show_service_menu {
            self.sized(parts[0]).menu_scrolled(menu_parts[0].height as int)
        } else {
            self.sized(parts[0])
        }
    }

    /// Whether everything on the screen can be drawn.
    pub open spec fn screen_fits(self, parts: Seq<Area>, menu_parts: Seq<Area>, t: Times) -> bool {
        &&& self.sized(parts[0]).pane_ready(t.filter)
        &&& self.dates_fit()
        &&& self.cursor_row < usize::MAX
        &&& self.cursor_col < usize::MAX
        &&& self.command_fits()
        &&& self.show_service_menu && self.service_rows().len() > 0 ==> self.drawn(parts, menu_parts).menu_fits(
            menu_parts[0].width as int,
            menu_parts[0].height as int,
        )
    }

    /// The cursor on the screen: in the menu's search, on the line that a filter
    /// is typed on, or on the log.
    pub open spec fn screen_cursor(self, parts: Seq<Area>, menu_parts: Seq<Area>) -> Option<(u16, u16)> {
        if self.show_service_menu && self.show_service_search {
            Some(self.search_cursor(menu_parts[2]))
        } else if self.prompt_mode == PromptMode::Filter {
            self.command_cursor(parts[2])
        } else {
            self.sized(parts[0]).pane_cursor(parts[0])
        }
    }
}

/// Whether a screen shows a state, on the areas of the log pane, the bar and the
/// line, and on those of the menu; `notice` is whether a notice is still shown.
pub open spec fn is_screen_of(
    r: Screen,
    s: StateView,
    parts: Seq<Area>,
    menu_parts: Seq<Area>,
    p: Pens,
    t: Times,
    notice: bool,
) -> bool {
    &&& span::lines_view(r.pane.lines@) == s.sized(parts[0]).pane_lines(t.filter, p)
    &&& r.pane.cursor == s.sized(parts[0]).pane_cursor(parts[0])
    &&& status::is_bar_of(r.bar, s.sized(parts[0]), parts[1], p.theme, t.age)
    &&& prompt::command_view(r.line) == s.command_line()
    &&& prompt::cursor_view(r.line) == s.command_cursor(parts[2])
    &&& r.menu is Some == s.show_service_menu
    &&& r.menu matches Some(m) ==> menu::is_menu_of(m, s.drawn(parts, menu_parts), menu_parts, p.theme)
    &&& r.popup is Some == (notice && s.clipboard_notice is Some)
    &&& r.popup matches Some(w) ==> w.area == popup_area(parts[0], s.clipboard_notice->0.len() as int)
        && span::spans_view(w.spans@) == popup_line(s.clipboard_notice->0)
    &&& r.cursor == s.screen_cursor(parts, menu_parts)
}

/// Whether this is what came of drawing a state, which is `after` then: a screen, if
/// and only if the time can be told and everything be drawn at that time.
pub open spec fn is_drawing(
    r: Option<Screen>,
    before: StateView,
    after: StateView,
    parts: Seq<Area>,
    menu_parts: Seq<Area>,
    p: Pens,
    t: Times,
    notice: bool,
) -> bool {
    &&& before.times_fit() ==> before.may_be_now(t.filter) && t.filter <= t.age
    &&& r is Some == (before.times_fit() && before.screen_fits(parts, menu_parts, t))
    &&& r matches Some(s) ==> after == before.drawn(parts, menu_parts) && is_screen_of(
        s,
        before,
        parts,
        menu_parts,
        p,
        t,
        notice,
    )
}

/// The rows inside the menu's border: the names, a footer of one row, and two rows
/// to search in where `search` is set. They lie inside the border, and where there
/// are rows enough, the names take what the others leave.
pub open spec fn is_menu_split(parts: Seq<Area>, inner: Area, search: bool) -> bool {
    let below: int = if search {
        3
    } else {
        1
    };
    &&& parts.len() == (if search {
        3int
    } else {
        2int
    })
    &&& forall|i: int|
        0 <= i < parts.len() ==> {
            &&& (#[trigger] parts[i]).x == inner.x
            &&& parts[i].width == inner.width
            &&& inner.y <= parts[i].y
            &&& parts[i].y + parts[i].height <= inner.end_y()
        }
    &&& inner.height > below ==> {
        let names = inner.height - below;
        &&& parts[0].y == inner.y && parts[0].height == names
        &&& parts[1].y == inner.y + names && parts[1].height == 1
        &&& search ==> parts[2].y == inner.y + names + 1 && parts[2].height == 2
    }
}

impl AppState {
    /// The notice, where there is one to show.
    fn draw_notice(&self, parent: &Area, notice: bool) -> (r: Option<Popup>)
        ensures
            r is Some == (notice && self@.clipboard_notice is Some),
            r matches Some(w) ==> w.area == popup_area(*parent, self@.clipboard_notice->0.len() as int)
                && span::spans_view(w.spans@) == popup_line(self@.clipboard_notice->0),
    {
        match &self.clipboard_notice {
            Some(n) => if notice {
                Some(render_clipboard_popup(parent, n.0.as_str()))
            } else {
                None
            },
            None => None,
        }
    }

    /// Draws the screen on the areas of the log pane, the bar and the line, and on
    /// those of the menu. Nothing is drawn where a part of it cannot be.
    pub fn draw_screen(
        &mut self,
        parts: &Vec<Area>,
        menu_parts: &Vec<Area>,
        p: &Pens,
        t: &Times,
        notice: bool,
    ) -> (r: Option<Screen>)
        requires
            parts@.len() == 3,
            old(self).show_service_menu ==> menu_parts@.len() >= 2,
            old(self).show_service_menu && old(self).show_service_search ==> menu_parts@.len() >= 3,
        ensures
            r is Some == old(self)@.screen_fits(parts@, menu_parts@, *t),
            r matches Some(s) ==> final(self)@ == old(self)@.drawn(parts@, menu_parts@) && is_screen_of(
                s,
                old(self)@,
                parts@,
                menu_parts@,
                *p,
                *t,
                notice,
            ),
    {
        let ghost start = self@;
        self.set_viewport(&parts[0]);
        if self.cursor_row == usize::MAX || self.cursor_col == usize::MAX || !self.can_draw_pane(t.filter)
            || !self.can_tell_dates() {
            return None;
        }
        let pane = self.draw_pane(&parts[0], p, t.filter);
        let bar = self.status_bar_at(&parts[1], &p.theme, t.age);
        let line = match self.try_command_line(&parts[2]) {
            Some(l) => l,
            None => {
                return None;
            },
        };
        let popup = self.draw_notice(&parts[0], notice);
        let mut cursor = match &line {
            Some(l) => if l.cursor.is_some() {
                l.cursor
            } else {
                pane.cursor
            },
            None => pane.cursor,
        };
        let mut shown: Option<Menu> = None;
        if self.show_service_menu {
            proof {
                menu::lemma_same_services(start, self@);
            }
            match self.render_service_menu(menu_parts, &p.theme) {
                Some(m) => {
                    match &m.search {
                        Some(s) => {
                            cursor = Some(s.cursor);
                        },
                        None => {},
                    }
                    shown = Some(m);
                },
                None => {
                    return None;
                },
            }
        }
        Some(Screen { pane, bar, line, menu: shown, popup, cursor })
    }

    /// Shares the screen out and draws it; `is_dark` is whether the terminal's
    /// background is dark, `notice` whether a notice is still shown. Nothing is
    /// drawn where a part of it cannot be. The areas of the log pane, the bar and
    /// the line are handed back, with those of the menu where it is shown: on a
    /// screen of three rows or more, the bar and the line take the last two.
    pub fn render(
        &mut self,
        area: &Area,
        theme: &UiTheme,
        color_mode: &TerminalColorMode,
        is_dark: bool,
        notice: bool,
    ) -> (r: (Vec<Area>, Vec<Area>, Option<Screen>))
        requires
        ensures
            r.0@.len() == 3,
            forall|i: int| 0 <= i < 3 ==> (#[trigger] r.0@[i]).x == area.x && r.0@[i].width == area.width,
            forall|i: int|
                0 <= i < 3 ==> area.y <= (#[trigger] r.0@[i]).y && r.0@[i].y + r.0@[i].height <= area.end_y(),
            area.height >= 3 && area.y + area.height <= 65535 ==> {
                &&& r.0@[0].y == area.y && r.0@[0].height == area.height - 2
                &&& r.0@[1].y == area.y + area.height - 2 && r.0@[1].height == 1
                &&& r.0@[2].y == area.y + area.height - 1 && r.0@[2].height == 1
            },
            !old(self).show_service_menu ==> r.1@.len() == 0,
            old(self).show_service_menu ==> is_menu_split(
                r.1@,
                menu::menu_area(r.0@[0]).framed(),
                old(self).show_service_search,
            ),
            exists|t: Times| #[trigger]
                is_drawing(
                    r.2,
                    old(self)@,
                    final(self)@,
                    r.0@,
                    r.1@,
                    pane::pens(*theme, *color_mode, is_dark),
                    t,
                    notice,
                ),
    {
        proof {
            reveal_with_fuel(area::rows_from, 4);
        }
        let below: Vec<u16> = vec![1, 1];
        let parts = stack(*area, 1, &below);
        let menu_below: Vec<u16> = if self.show_service_search {
            vec![1, 2]
        } else {
            vec![1]
        };
        let menu_parts = if self.show_service_menu {
            stack(place_menu(&parts[0]).inner(), 1, &menu_below)
        } else {
            Vec::new()
        };
        let p = Pens {
            theme: *theme,
            sel: compute_neutral_selection_style(color_mode, is_dark),
            active: compute_neutral_active_line_style(color_mode, is_dark),
        };
        let ghost pens = pane::pens(*theme, *color_mode, is_dark);
        assert(p == pens);
        if !self.can_tell_time() {
            let ghost t = Times { filter: 0, age: 0 };
            let r = (parts, menu_parts, None);
            assert(is_drawing(r.2, self@, self@, r.0@, r.1@, pens, t, notice));
            return r;
        }
        let filter: u64 = self.reference_timestamp_secs();
        let wall: u64 = wall_clock_secs();
        let t = Times {
            filter,
            age: if filter >= wall {
                filter
            } else {
                wall
            },
        };
        let ghost start = self@;
        let drawn = self.draw_screen(&parts, &menu_parts, &p, &t, notice);
        let r = (parts, menu_parts, drawn);
        assert(is_drawing(r.2, start, self@, r.0@, r.1@, pens, t, notice));
        r
    }
}

} // verus!
