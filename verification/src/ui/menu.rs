//! The menu of services.

use super::area::{self, Area};
use super::pane;
use super::span::{self, blanks, put, put_line, put_str, Span};
use crate::ansi::Piece;
use crate::arith::{self, sum_up_to};
use crate::config::theme::{self, Color, UiTheme};
use crate::logitem::{self, can_truncate, truncate_service};
use crate::service::{ContainerFilterOption, ServiceView};
use crate::state::view::{lemma_found_services, StateView};
use crate::state::AppState;
use crate::style::{Emphasis, RatColor, Style};
use vstd::prelude::*;

verus! {

/// The part of the screen that the menu takes up: the lower left of the log pane.
pub open spec fn menu_area(parent: Area) -> Area {
    let width = arith::lesser(46, parent.width as int);
    let height = arith::lesser(14, parent.height as int);
    Area {
        x: parent.x,
        y: arith::less(parent.end_y(), height) as u16,
        width: width as u16,
        height: height as u16,
    }
}

pub fn place_menu(parent: &Area) -> (r: Area)
    ensures
        r == menu_area(*parent),
{
    let width: u16 = if parent.width < 46 {
        parent.width
    } else {
        46
    };
    let height: u16 = if parent.height < 14 {
        parent.height
    } else {
        14
    };
    Area { x: parent.x, y: parent.bottom().saturating_sub(height), width, height }
}

// ---------------------------------------------------------------------------
// A row
// ---------------------------------------------------------------------------

/// The room for a name in a row: what the mark, the dot and a blank leave.
pub open spec fn name_room(width: int) -> int {
    arith::less(width, 4)
}

/// The background of a row.
pub open spec fn row_bg(selected: bool) -> Style {
    if selected {
        Style::plain().bg(RatColor::DarkGray)
    } else {
        Style::plain()
    }
}

fn bg_of_row(selected: bool) -> (r: Style)
    ensures
        r == row_bg(selected),
{
    if selected {
        Style::plain().bg(RatColor::DarkGray)
    } else {
        Style::plain()
    }
}

/// The colour of the dot that shows how a service is.
pub open spec fn dot_color(opt: ServiceView, theme: UiTheme) -> Color {
    if opt.has_error {
        theme.status_error
    } else if opt.is_running {
        theme.status_active
    } else {
        theme.dim
    }
}

/// The mark of an enabled service.
pub open spec fn check_piece(enabled: bool, selected: bool, theme: UiTheme) -> Piece {
    if enabled {
        span::styled(
            "✔ "@,
            Style::plain().fg(theme::terminal_color(theme.status_active)).with(Emphasis::bold()).patch(
                row_bg(selected),
            ),
        )
    } else {
        span::styled("  "@, row_bg(selected))
    }
}

/// The style of a name.
pub open spec fn name_style(selected: bool, theme: UiTheme) -> Style {
    (if selected {
        Style::plain().fg(RatColor::White).with(Emphasis::bold())
    } else {
        Style::plain().fg(theme::terminal_color(theme.fg))
    }).patch(row_bg(selected))
}

/// A row of the menu: the mark, the name, blanks and the dot.
pub open spec fn menu_row(opt: ServiceView, selected: bool, width: int, theme: UiTheme) -> Seq<Piece> {
    let room = name_room(width);
    let name = logitem::clipped(opt.name, room);
    seq![
        check_piece(opt.enabled, selected, theme),
        span::styled(name, name_style(selected, theme)),
        span::styled(span::blank(arith::less(room, name.len() as int) + 1), row_bg(selected)),
        span::styled(
            "●"@,
            Style::plain().fg(theme::terminal_color(dot_color(opt, theme))).with(Emphasis::bold()).patch(
                row_bg(selected),
            ),
        ),
    ]
}

fn put_check(line: &mut Vec<Span>, enabled: bool, selected: bool, theme: &UiTheme)
    ensures
        span::spans_view(final(line)@) == span::spans_view(old(line)@).push(check_piece(enabled, selected, *theme)),
{
    if enabled {
        put_str(
            line,
            "✔ ",
            Style::plain().fg(theme.status_active.to_ratatui()).with(Emphasis::bold()).patch(bg_of_row(selected)),
        );
    } else {
        put_str(line, "  ", bg_of_row(selected));
    }
}

fn style_of_name(selected: bool, theme: &UiTheme) -> (r: Style)
    ensures
        r == name_style(selected, *theme),
{
    let own = if selected {
        Style::plain().fg(RatColor::White).with(Emphasis::bold())
    } else {
        Style::plain().fg(theme.fg.to_ratatui())
    };
    own.patch(bg_of_row(selected))
}

fn color_of_dot(opt: &ContainerFilterOption, theme: &UiTheme) -> (r: Color)
    ensures
        r == dot_color(opt@, *theme),
{
    if opt.has_error {
        theme.status_error
    } else if opt.is_running {
        theme.status_active
    } else {
        theme.dim
    }
}

fn draw_menu_row(opt: &ContainerFilterOption, selected: bool, width: usize, theme: &UiTheme) -> (r: Vec<Span>)
    requires
        logitem::clips(opt@.name, name_room(width as int)),
    ensures
        span::spans_view(r@) == menu_row(opt@, selected, width as int, *theme),
{
    let mut line: Vec<Span> = Vec::new();
    assert(span::spans_view(line@) =~= seq![]);
    let room: usize = width.saturating_sub(4);
    let name = truncate_service(opt.name.as_str(), room);
    let padding: usize = room.saturating_sub(name.as_str().unicode_len()) + 1;
    put_check(&mut line, opt.enabled, selected, theme);
    put(&mut line, name, style_of_name(selected, theme));
    put(&mut line, blanks(padding), bg_of_row(selected));
    put_str(
        &mut line,
        "●",
        Style::plain().fg(color_of_dot(opt, theme).to_ratatui()).with(Emphasis::bold()).patch(bg_of_row(selected)),
    );
    assert(span::spans_view(line@) =~= menu_row(opt@, selected, width as int, *theme));
    line
}

// ---------------------------------------------------------------------------
// The menu
// ---------------------------------------------------------------------------

impl StateView {
    /// The first service in the list once the selected one is inside it, with
    /// some rows around it where there is room.
    pub open spec fn menu_top(self, height: int) -> int {
        let margin = arith::lesser(2, arith::less(height, 1) / 2);
        let sel = self.service_menu_selected_idx;
        let up = if sel < self.service_menu_scroll + margin {
            arith::less(sel, margin)
        } else {
            self.service_menu_scroll
        };
        let down = if sel + margin >= up + height {
            arith::less(sel + margin + 1, height)
        } else {
            up
        };
        arith::lesser(down, arith::less(self.service_rows().len() as int, height))
    }

    /// The state once the menu's list of `height` rows has been drawn.
    pub open spec fn menu_scrolled(self, height: int) -> StateView {
        if self.service_rows().len() == 0 {
            self
        } else {
            StateView { service_menu_scroll: self.menu_top(height), ..self }
        }
    }

    /// The row below the last one that fits.
    pub open spec fn menu_end(self, height: int) -> int {
        arith::lesser(self.service_menu_scroll + height, self.service_rows().len() as int)
    }

    /// The service in a row of the list.
    pub open spec fn service_in_row(self, i: int) -> ServiceView {
        self.service_options[self.service_rows()[i] as int]
    }

    /// Whether the names that are drawn can be cut to the room there is.
    pub open spec fn menu_fits(self, width: int, height: int) -> bool {
        forall|i: int|
            self.service_menu_scroll <= i < self.menu_end(height) ==> logitem::clips(
                (#[trigger] self.service_in_row(i)).name,
                name_room(width),
            )
    }

    /// The rows of the list; where no service is found, a line that says so.
    pub open spec fn menu_rows(self, width: int, height: int, theme: UiTheme) -> Seq<Seq<Piece>> {
        if self.service_rows().len() == 0 {
            Seq::new((arith::less(height, 1) / 2) as nat, |i: int| Seq::<Piece>::empty()).push(
                seq![span::styled("No results"@, Style::plain().fg(theme::terminal_color(theme.dim)))],
            )
        } else {
            Seq::new(
                arith::less(self.menu_end(height), self.service_menu_scroll) as nat,
                |k: int|
                    menu_row(
                        self.service_in_row(self.service_menu_scroll + k),
                        self.service_menu_scroll + k == self.service_menu_selected_idx,
                        width,
                        theme,
                    ),
            )
        }
    }

    /// The line that a service is searched on.
    pub open spec fn search_line(self, theme: UiTheme) -> Seq<Piece> {
        seq![
            span::styled("Search: "@, Style::plain().fg(theme::terminal_color(theme.dim))),
            span::styled(self.service_search_query, Style::plain().fg(theme::terminal_color(theme.fg))),
        ]
    }

    /// The cursor on that line.
    pub open spec fn search_cursor(self, area: Area) -> (u16, u16) {
        let x = area.x + 8 + pane::coordinate(self.service_search_query.len() as int);
        (area.kept_x(x) as u16, area::capped(area.y as int, 1) as u16)
    }
}

/// The keys that are shown below the list.
pub open spec fn menu_footer(theme: UiTheme) -> Seq<Piece> {
    let key = Style::plain().fg(RatColor::White).with(Emphasis::bold());
    let dim = Style::plain().fg(theme::terminal_color(theme.dim));
    seq![
        span::styled("C-x"@, key),
        span::styled(" Unselect all  "@, dim),
        span::styled("C-a"@, key),
        span::styled(" Select all"@, dim),
    ]
}

fn draw_menu_footer(theme: &UiTheme) -> (r: Vec<Span>)
    ensures
        span::spans_view(r@) == menu_footer(*theme),
{
    let key = Style::plain().fg(RatColor::White).with(Emphasis::bold());
    let dim = Style::plain().fg(theme.dim.to_ratatui());
    let mut line: Vec<Span> = Vec::new();
    assert(span::spans_view(line@) =~= seq![]);
    put_str(&mut line, "C-x", key);
    put_str(&mut line, " Unselect all  ", dim);
    put_str(&mut line, "C-a", key);
    put_str(&mut line, " Select all", dim);
    assert(span::spans_view(line@) =~= menu_footer(*theme));
    line
}

/// The menu: its list, the keys below it, and the line that a service is searched on.
pub struct Menu {
    pub rows: Vec<Vec<Span>>,
    /// Whether the rows are centred.
    pub centered: bool,
    pub footer: Vec<Span>,
    pub search: Option<SearchLine>,
}

/// The line that a service is searched on, and its cursor.
pub struct SearchLine {
    pub spans: Vec<Span>,
    pub cursor: (u16, u16),
}

/// What a menu holds is what a state says, on the areas of the list, the keys and the search.
pub open spec fn is_menu_of(m: Menu, s: StateView, parts: Seq<Area>, theme: UiTheme) -> bool {
    &&& span::lines_view(m.rows@) == s.menu_rows(parts[0].width as int, parts[0].height as int, theme)
    &&& m.centered == (s.service_rows().len() == 0)
    &&& span::spans_view(m.footer@) == menu_footer(theme)
    &&& m.search is Some == s.show_service_search
    &&& m.search matches Some(l) ==> span::spans_view(l.spans@) == s.search_line(theme) && l.cursor
        == s.search_cursor(parts[2])
}

/// The line that says that no service is found, in the middle of `height` rows.
fn draw_no_results(height: usize, theme: &UiTheme) -> (r: Vec<Vec<Span>>)
    ensures
        span::lines_view(r@) == Seq::new(
            (arith::less(height as int, 1) / 2) as nat,
            |i: int| Seq::<Piece>::empty(),
        ).push(seq![span::styled("No results"@, Style::plain().fg(theme::terminal_color(theme.dim)))]),
{
    let above: usize = height.saturating_sub(1) / 2;
    let mut lines: Vec<Vec<Span>> = Vec::new();
    let mut i: usize = 0;
    assert(span::lines_view(lines@) =~= Seq::new(0, |i: int| Seq::<Piece>::empty()));
    while i < above
        invariant
            i <= above,
            span::lines_view(lines@) == Seq::new(i as nat, |i: int| Seq::<Piece>::empty()),
        decreases above - i,
    {
        let empty: Vec<Span> = Vec::new();
        assert(span::spans_view(empty@) =~= Seq::<Piece>::empty());
        put_line(&mut lines, empty);
        i += 1;
        assert(span::lines_view(lines@) =~= Seq::new(i as nat, |i: int| Seq::<Piece>::empty()));
    }
    let mut line: Vec<Span> = Vec::new();
    put_str(&mut line, "No results", Style::plain().fg(theme.dim.to_ratatui()));
    assert(span::spans_view(line@) =~= seq![
        span::styled("No results"@, Style::plain().fg(theme::terminal_color(theme.dim))),
    ]);
    put_line(&mut lines, line);
    lines
}

impl AppState {
    /// The first service in the list once the selected one is inside it.
    fn find_menu_top(&self, count: usize, height: usize) -> (r: usize)
        requires
            count == self@.service_rows().len(),
        ensures
            r == self@.menu_top(height as int),
    {
        let half: usize = height.saturating_sub(1) / 2;
        let margin: u128 = if half < 2 {
            half as u128
        } else {
            2
        };
        let sel: u128 = self.service_menu_selected_idx as u128;
        let rows: u128 = height as u128;
        let up: u128 = if sel < self.service_menu_scroll as u128 + margin {
            sel.saturating_sub(margin)
        } else {
            self.service_menu_scroll as u128
        };
        let down: u128 = if sel + margin >= up + rows {
            (sel + margin + 1).saturating_sub(rows)
        } else {
            up
        };
        let last: usize = count.saturating_sub(height);
        if down <= last as u128 {
            down as usize
        } else {
            last
        }
    }

    /// The rows of the list, where the names can be cut to the room there is.
    fn draw_menu_rows(&self, rows: &Vec<usize>, width: usize, height: usize, theme: &UiTheme) -> (r: Option<
        Vec<Vec<Span>>,
    >)
        requires
            rows@ == self@.service_rows(),
            rows@.len() > 0,
        ensures
            r is Some == self@.menu_fits(width as int, height as int),
            r matches Some(l) ==> span::lines_view(l@) == self@.menu_rows(width as int, height as int, *theme),
    {
        let services: usize = self.service_options.len();
        assert(services == self@.service_options.len());
        proof {
            lemma_found_services(self@, self@.service_options.len() as int);
        }
        let start: usize = self.service_menu_scroll;
        let end: usize = sum_up_to(start, height, rows.len());
        let ghost all = self@.menu_rows(width as int, height as int, *theme);
        let mut lines: Vec<Vec<Span>> = Vec::new();
        assert(span::lines_view(lines@) =~= all.take(0));
        if start >= end {
            assert(all =~= all.take(0));
            return Some(lines);
        }
        let mut i: usize = start;
        while i < end
            invariant
                start <= i <= end <= rows@.len(),
                start == self@.service_menu_scroll,
                end == self@.menu_end(height as int),
                rows@ == self@.service_rows(),
                rows@.len() > 0,
                forall|k: int| 0 <= k < rows@.len() ==> (#[trigger] rows@[k]) < self.service_options@.len(),
                all == self@.menu_rows(width as int, height as int, *theme),
                all.len() == end - start,
                span::lines_view(lines@) == all.take(i - start),
                forall|k: int|
                    start <= k < i ==> logitem::clips(
                        (#[trigger] self@.service_in_row(k)).name,
                        name_room(width as int),
                    ),
            decreases end - i,
        {
            let service: usize = rows[i];
            let opt = &self.service_options[service];
            assert(self@.service_in_row(i as int) == opt@);
            if !can_truncate(opt.name.as_str(), width.saturating_sub(4)) {
                return None;
            }
            let line = draw_menu_row(opt, i == self.service_menu_selected_idx, width, theme);
            let ghost k = i - start;
            assert(all[k] == span::spans_view(line@));
            assert(all.take(k + 1) =~= all.take(k).push(all[k]));
            put_line(&mut lines, line);
            i += 1;
        }
        assert(all.take(i - start) =~= all);
        Some(lines)
    }

    /// Draws the menu on the areas of its list, its keys and its search, and
    /// scrolls the list to the selected service. Nothing is drawn where a name
    /// cannot be cut to the room there is.
    pub fn render_service_menu(&mut self, parts: &Vec<Area>, theme: &UiTheme) -> (r: Option<Menu>)
        requires
            parts@.len() >= 2,
            old(self).show_service_search ==> parts@.len() >= 3,
        ensures
            final(self)@ == old(self)@.menu_scrolled(parts@[0].height as int),
            r is Some == (old(self)@.service_rows().len() > 0 ==> final(self)@.menu_fits(
                parts@[0].width as int,
                parts@[0].height as int,
            )),
            r matches Some(m) ==> is_menu_of(m, final(self)@, parts@, *theme),
    {
        let width: usize = parts[0].width as usize;
        let height: usize = parts[0].height as usize;
        let found = self.filtered_service_indices();
        let rows = if found.len() == 0 {
            draw_no_results(height, theme)
        } else {
            let ghost before = self@;
            let top: usize = self.find_menu_top(found.len(), height);
            self.service_menu_scroll = top;
            proof {
                lemma_same_services(before, self@);
            }
            match self.draw_menu_rows(&found, width, height, theme) {
                Some(l) => l,
                None => {
                    return None;
                },
            }
        };
        let search = if self.show_service_search {
            let mut spans: Vec<Span> = Vec::new();
            assert(span::spans_view(spans@) =~= seq![]);
            put_str(&mut spans, "Search: ", Style::plain().fg(theme.dim.to_ratatui()));
            put(&mut spans, self.service_search_query.clone(), Style::plain().fg(theme.fg.to_ratatui()));
            assert(span::spans_view(spans@) =~= self@.search_line(*theme));
            let n: usize = self.service_search_query.as_str().unicode_len();
            let x: u16 = parts[2].keep_x(parts[2].x as u128 + 8 + (n % 65536) as u128);
            Some(SearchLine { spans, cursor: (x, parts[2].y.saturating_add(1)) })
        } else {
            None
        };
        Some(Menu { rows, centered: found.len() == 0, footer: draw_menu_footer(theme), search })
    }
}

/// Which services are found depends on the services and the search alone.
pub proof fn lemma_same_services(a: StateView, b: StateView)
    requires
        a.service_options == b.service_options,
        a.show_service_search == b.show_service_search,
        a.service_search_query == b.service_search_query,
    ensures
        a.service_rows() == b.service_rows(),
{
    lemma_same_found(a, b, a.service_options.len() as int);
}

proof fn lemma_same_found(a: StateView, b: StateView, n: int)
    requires
        a.service_options == b.service_options,
        a.show_service_search == b.show_service_search,
        a.service_search_query == b.service_search_query,
    ensures
        a.found_services(n) == b.found_services(n),
    decreases n,
{
    if 0 < n <= a.service_options.len() {
        lemma_same_found(a, b, n - 1);
    }
}

/// Once the menu is drawn, the selected service stands in its list.
pub proof fn law_selected_service_in_list(s: StateView, height: int)
    requires
        height > 0,
        0 <= s.service_menu_selected_idx < s.service_rows().len(),
        s.service_menu_scroll >= 0,
    ensures
        s.menu_top(height) <= s.service_menu_selected_idx < s.menu_top(height) + height,
        0 <= s.menu_top(height),
{
}

} // verus!
