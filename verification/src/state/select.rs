//! Marking and selecting text, and the list of services.

use super::view::{self, StateView, VisualMode};
use super::AppState;
use crate::arith::{max_of, min_of};
use crate::text::{self, chars_of, has_text, string_of, to_lower};
use vstd::prelude::*;
use vstd::slice::slice_subrange;

verus! {

/// What each text of a list holds.
pub open spec fn lines_view(v: Seq<Vec<char>>) -> Seq<Seq<char>> {
    v.map_values(|l: Vec<char>| l@)
}

fn stack(lines: &Vec<Vec<char>>) -> (r: String)
    ensures
        r@ == view::stacked(lines_view(lines@)),
{
    let ghost all = lines_view(lines@);
    let mut out: Vec<char> = Vec::new();
    let mut i: usize = 0;
    while i < lines.len()
        invariant
            i <= lines@.len(),
            all == lines_view(lines@),
            out@ == view::stacked(all.take(i as int)),
        decreases lines@.len() - i,
    {
        assert(all.take(i + 1).drop_last() =~= all.take(i as int));
        assert(all.take(i + 1).last() == lines@[i as int]@);
        let ghost before = out@;
        if i > 0 {
            out.push('\n');
        }
        out.extend_from_slice(lines[i].as_slice());
        assert(out@ =~= view::stacked(all.take(i + 1)));
        i += 1;
    }
    assert(all.take(i as int) =~= all);
    string_of(out.as_slice())
}

/// The characters from `a` up to and with `b`, as far as there are any.
fn cut_span(s: &[char], a: usize, b: usize) -> (r: Vec<char>)
    ensures
        r@ == view::span(s@, a as int, b as int),
{
    let from: usize = min_of(a, s.len());
    let to: usize = if b < s.len() {
        b + 1
    } else {
        s.len()
    };
    let mut v: Vec<char> = Vec::new();
    if from < to {
        v.extend_from_slice(slice_subrange(s, from, to));
    }
    assert(v@ =~= view::span(s@, a as int, b as int));
    v
}

impl AppState {
    pub fn toggle_current_line(&mut self)
        ensures
            final(self)@ == old(self)@.line_toggled(),
    {
        broadcast use vstd::std_specs::hash::group_hash_axioms;

        if self.cursor_row < self.visible_indices.len() {
            let idx: usize = self.visible_indices[self.cursor_row];
            if self.toggled_lines.contains(&idx) {
                self.toggled_lines.remove(&idx);
            } else {
                self.toggled_lines.insert(idx);
            }
        }
    }

    pub fn toggle_visual_mode(&mut self, mode: VisualMode)
        ensures
            final(self)@ == old(self)@.mode_toggled(mode),
    {
        if self.visual_mode == mode {
            self.visual_mode = VisualMode::Off;
            self.visual_anchor = None;
        } else {
            self.visual_mode = mode;
            self.visual_anchor = Some((self.cursor_row, self.cursor_col));
            self.sticky = false;
        }
    }

    pub fn exit_visual_mode(&mut self)
        ensures
            final(self)@ == old(self)@.mode_left(),
    {
        self.visual_mode = VisualMode::Off;
        self.visual_anchor = None;
        self.is_mouse_dragging = false;
        self.last_mouse_pos = None;
    }

    fn marked_lines(&self) -> (r: Vec<Vec<char>>)
        requires
            self@.marked_fit(),
        ensures
            lines_view(r@) == self@.marked(self@.logs.len() as int),
    {
        broadcast use vstd::std_specs::hash::group_hash_axioms;

        let mut lines: Vec<Vec<char>> = Vec::new();
        let mut i: usize = 0;
        assert(lines_view(lines@) =~= seq![]);
        while i < self.logs.len()
            invariant
                i <= self.logs@.len(),
                self@.marked_fit(),
                lines_view(lines@) == self@.marked(i as int),
            decreases self.logs@.len() - i,
        {
            assert(self@.logs[i as int] == self.logs@[i as int]@);
            let ghost before = lines@;
            if self.toggled_lines.contains(&i) {
                let line = chars_of(self.logs[i].full_line_text().as_str());
                let ghost held = line@;
                lines.push(line);
                assert(lines_view(lines@) =~= lines_view(before).push(held));
            }
            i += 1;
        }
        lines
    }

    /// What is selected of the line in row `r`.
    fn selected_in(&self, r: usize, line: &[char]) -> (out: Vec<char>)
        requires
            self.visual_anchor is Some,
        ensures
            out@ == self@.selected_in(r as int, line@),
    {
        let (anchor_row, anchor_col) = match self.visual_anchor {
            Some(a) => a,
            None => (0, 0),
        };
        match self.visual_mode {
            VisualMode::Block => cut_span(
                line,
                min_of(anchor_col, self.cursor_col),
                max_of(anchor_col, self.cursor_col),
            ),
            VisualMode::Character => {
                let forward: bool = anchor_row < self.cursor_row || (anchor_row == self.cursor_row && anchor_col
                    <= self.cursor_col);
                let (start, end) = if forward {
                    ((anchor_row, anchor_col), (self.cursor_row, self.cursor_col))
                } else {
                    ((self.cursor_row, self.cursor_col), (anchor_row, anchor_col))
                };
                if start.0 == end.0 {
                    cut_span(line, start.1, end.1)
                } else if r == start.0 {
                    cut_span(line, start.1, line.len())
                } else if r == end.0 {
                    cut_span(line, 0, end.1)
                } else {
                    let mut v: Vec<char> = Vec::new();
                    v.extend_from_slice(line);
                    assert(v@ =~= line@);
                    v
                }
            },
            _ => {
                let mut v: Vec<char> = Vec::new();
                v.extend_from_slice(line);
                assert(v@ =~= line@);
                v
            },
        }
    }

    /// The selected parts of the rows from `a` up to and with `b`.
    fn selected_rows(&self, a: usize, b: usize) -> (r: Vec<Vec<char>>)
        requires
            self@.fit_between(a as int, b + 1),
            self.visual_anchor is Some,
            a <= b,
        ensures
            lines_view(r@) == self@.selected_rows(a as int, b + 1),
    {
        let mut lines: Vec<Vec<char>> = Vec::new();
        let mut i: usize = a;
        let mut more: bool = true;
        assert(lines_view(lines@) =~= seq![]);
        while more
            invariant
                self@.fit_between(a as int, b + 1),
                self.visual_anchor is Some,
                a <= i <= b,
                more ==> lines_view(lines@) == self@.selected_rows(a as int, i as int),
                !more ==> i == b && lines_view(lines@) == self@.selected_rows(a as int, b + 1),
            decreases
                    (b - i) + (if more {
                        1int
                    } else {
                        0int
                    }),
        {
            let ghost before = lines@;
            assert(self@.fits_at(i as int));
            match self.get_visible_log(i) {
                Some(l) => {
                    let line = chars_of(l.full_line_text().as_str());
                    let part = self.selected_in(i, line.as_slice());
                    let ghost held = part@;
                    lines.push(part);
                    assert(lines_view(lines@) =~= lines_view(before).push(held));
                },
                None => {},
            }
            assert(lines_view(lines@) == self@.selected_rows(a as int, i + 1));
            if i < b {
                i += 1;
            } else {
                more = false;
            }
        }
        lines
    }

    pub fn get_selected_text(&self) -> (r: Option<String>)
        requires
            self@.selection_fits(),
        ensures
            r matches Some(s) ==> self@.selected_text() == Some(s@),
            r is None ==> self@.selected_text() is None,
    {
        reveal(StateView::selected_text);
        if !self.toggled_lines.is_empty() {
            let lines = self.marked_lines();
            return Some(stack(&lines));
        }
        let (anchor_row, _) = match self.visual_anchor {
            Some(a) => a,
            None => return None,
        };
        if self.visual_mode == VisualMode::Off {
            return None;
        }
        let lines = self.selected_rows(min_of(anchor_row, self.cursor_row), max_of(anchor_row, self.cursor_row));
        Some(stack(&lines))
    }

    pub fn filtered_service_indices(&self) -> (r: Vec<usize>)
        ensures
            r@ == self@.service_rows(),
    {
        let query = chars_of(to_lower(self.service_search_query.as_str()).as_str());
        let open: bool = !self.show_service_search || self.service_search_query.as_str().unicode_len() == 0;
        let mut found: Vec<usize> = Vec::new();
        let mut i: usize = 0;
        while i < self.service_options.len()
            invariant
                i <= self.service_options@.len(),
                query@ == text::lowercase(self@.service_search_query),
                open == (!self@.show_service_search || self@.service_search_query.len() == 0),
                found@ == self@.found_services(i as int),
            decreases self.service_options@.len() - i,
        {
            assert(self@.service_options[i as int] == self.service_options@[i as int]@);
            let name = chars_of(to_lower(self.service_options[i].name.as_str()).as_str());
            if open || has_text(name.as_slice(), query.as_slice()) {
                found.push(i);
            }
            i += 1;
        }
        found
    }

    pub fn update_service_search(&mut self)
        ensures
            final(self)@ == old(self)@.service_search_updated(),
    {
        let n: usize = self.filtered_service_indices().len();
        if n == 0 {
            self.service_menu_selected_idx = 0;
            self.service_menu_scroll = 0;
            return;
        }
        if self.service_menu_selected_idx >= n {
            self.service_menu_selected_idx = n - 1;
        }
    }
}

} // verus!
