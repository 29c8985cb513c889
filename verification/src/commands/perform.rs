//! Doing what was decided.

use super::keys::Command;
use crate::arith::{self, max_of, min_of};
use crate::logitem;
use crate::query::{self, Query};
use crate::service::ServiceView;
use crate::state::fits::lemma_same_lines;
use crate::state::view::{lemma_found_services, PromptMode, StateView, VisualMode};
use crate::state::AppState;
use crate::text::{self, chars_of, scan_backward, string_of, strip, Class};
use vstd::prelude::*;
use vstd::slice::slice_subrange;

verus! {

impl StateView {
    pub open spec fn prompt_left(self) -> StateView {
        StateView {
            prompt_mode: PromptMode::Off,
            input_buffer: seq![],
            filter_cursor_col: 0,
            live_filter_ast: None,
            ..self
        }
    }

    pub open spec fn searched(self, query: Seq<char>) -> StateView {
        (StateView { service_search_query: query, ..self }).service_search_updated()
    }

    pub open spec fn search_closed(self) -> StateView {
        (StateView { show_service_search: false, ..self }).searched(seq![])
    }

    pub open spec fn menu_moved(self, down: bool) -> StateView {
        let n = self.service_rows().len() as int;
        if n == 0 {
            self
        } else {
            StateView {
                service_menu_selected_idx: if down {
                    (self.service_menu_selected_idx + 1) % n
                } else {
                    (self.service_menu_selected_idx + n - 1) % n
                },
                ..self
            }
        }
    }

    /// The service that is selected in the menu.
    pub open spec fn menu_service(self) -> Option<usize> {
        let rows = self.service_rows();
        if self.service_menu_selected_idx < rows.len() {
            Some(rows[self.service_menu_selected_idx])
        } else {
            None
        }
    }

    pub open spec fn service_flipped(self) -> StateView {
        match self.menu_service() {
            Some(k) => StateView {
                service_options: self.service_options.update(
                    k as int,
                    ServiceView {
                        enabled: !self.service_options[k as int].enabled,
                        ..self.service_options[k as int]
                    },
                ),
                ..self
            },
            None => self,
        }
    }

    /// The options, each switched on or off as told.
    pub open spec fn services_switched(self, on: spec_fn(int) -> bool) -> StateView {
        StateView {
            service_options: Seq::new(
                self.service_options.len(),
                |i: int| ServiceView { enabled: on(i), ..self.service_options[i] },
            ),
            ..self
        }
    }

    pub open spec fn service_alone(self) -> StateView {
        match self.menu_service() {
            Some(k) => self.services_switched(|i: int| i == k),
            None => self,
        }
    }

    /// The filter that is typed put to use.
    pub open spec fn filter_set(self) -> StateView {
        let t = text::trimmed(self.input_buffer);
        StateView {
            filter_ast: if t.len() == 0 {
                None
            } else {
                match query::query_of(t) {
                    Ok(q) => Some(q),
                    Err(_) => None,
                }
            },
            active_filter_str: if t.len() == 0 {
                None
            } else {
                Some(t)
            },
            live_filter_ast: None,
            ..self
        }
    }

    pub open spec fn input_set(self, input: Seq<char>, col: int) -> StateView {
        StateView { input_buffer: input, filter_cursor_col: col, ..self }
    }

    /// Where the word before the cursor of the prompt begins.
    pub open spec fn input_word(self) -> int {
        text::run_start(
            self.input_buffer,
            text::run_start(self.input_buffer, self.filter_cursor_col, Class::Space),
            Class::NotSpace,
        )
    }

    /// The input once a command has changed it; nothing where it changes no character.
    pub open spec fn edited(self, cmd: Command) -> Option<StateView> {
        let input = self.input_buffer;
        let col = self.filter_cursor_col;
        match cmd {
            Command::InputDelete => if col < input.len() {
                Some(self.input_set(input.remove(col), col))
            } else {
                None
            },
            Command::InputBack => if 0 < col <= input.len() {
                Some(self.input_set(input.remove(col - 1), col - 1))
            } else {
                None
            },
            Command::InputClear => Some(self.input_set(seq![], 0)),
            Command::InputDropWord => Some(
                self.input_set(input.take(self.input_word()) + input.skip(col), self.input_word()),
            ),
            Command::InputInsert(c) => Some(
                self.input_set(input.insert(arith::lesser(col, input.len() as int), c), col + 1),
            ),
            Command::OpenPrompt => Some(
                (StateView { prompt_mode: PromptMode::Filter, ..self }).input_set(
                    match self.active_filter_str {
                        Some(a) => a,
                        None => seq![],
                    },
                    match self.active_filter_str {
                        Some(a) => a.len() as int,
                        None => 0,
                    },
                ),
            ),
            _ => None,
        }
    }

    /// The services switched by a command, if it switches any.
    pub open spec fn switched(self, cmd: Command) -> Option<StateView> {
        match cmd {
            Command::FlipService => Some(self.service_flipped()),
            Command::OnlyService => Some(self.service_alone()),
            Command::AllServices(on) => Some(self.services_switched(|i: int| on)),
            _ => None,
        }
    }

    pub open spec fn copied(self) -> StateView {
        if self.copies() {
            let s = StateView { toggled_lines: Set::empty(), ..self }.mode_left();
            if self.selected_text() is Some {
                StateView { clipboard_notice: Some("Copied to clipboard"@), ..s }
            } else {
                s
            }
        } else {
            self
        }
    }

    /// The text that a command puts on the clipboard.
    pub open spec fn text_to_copy(self, cmd: Command) -> Option<Seq<char>> {
        if cmd == Command::Copy && self.copies() {
            self.selected_text()
        } else {
            None
        }
    }

    /// Whether the lines can be measured that a command looks at in moving the cursor.
    pub open spec fn motion_fits(self, cmd: Command) -> bool {
        match cmd {
            Command::ToggleFold => self.fold_fits(),
            Command::WordBackward => self.fits_at(self.cursor_row) && self.cursor_on_line(),
            Command::Down(n) => self.down_fits(n as int),
            Command::Up(n) => self.up_fits(n as int),
            Command::Left(_) => self.left_fits(),
            Command::WordForward | Command::WordEnd | Command::Right(_) | Command::LineStart => self.fits_at(
                self.cursor_row,
            ),
            Command::LineEnd => {
                &&& self.all_fit()
                &&& self.viewport_width * 3 <= usize::MAX
                &&& self.fits_at(self.cursor_row)
            },
            Command::HalfDown => self.down_fits(self.half()),
            Command::HalfUp => self.up_fits(self.half()),
            Command::Bottom => self.bottom_fits(),
            Command::Top => self.row_fits(0),
            _ => true,
        }
    }

    /// Whether there is something to copy.
    pub open spec fn copies(self) -> bool {
        self.visual_mode != VisualMode::Off || !self.toggled_lines.is_empty()
    }

    /// Whether a command can be carried out.
    pub open spec fn can_do(self, cmd: Command, now: u64) -> bool {
        match cmd {
            Command::Copy => self.copies() ==> self.selection_fits(),
            Command::ApplyFilter => {
                &&& query::query_fits(text::trimmed(self.input_buffer))
                &&& self.times_fit()
                &&& self.filter_set().shown_ready(now)
            },
            _ => {
                &&& self.motion_fits(cmd)
                &&& self.switched(cmd) matches Some(s) ==> self.times_fit() && s.shown_ready(now)
                &&& cmd == Command::InputDropWord ==> self.filter_cursor_col <= self.input_buffer.len()
                &&& cmd is InputInsert ==> self.filter_cursor_col < usize::MAX
                &&& self.edited(cmd) matches Some(s) ==> s.live_fits()
            },
        }
    }

    /// What a command has changed by the time it turns out that it cannot be carried out.
    pub open spec fn begun(self, cmd: Command) -> StateView {
        if cmd == Command::ApplyFilter && query::query_fits(text::trimmed(self.input_buffer)) {
            self.filter_set()
        } else if self.switched(cmd) is Some {
            self.switched(cmd)->0
        } else if self.edited(cmd) is Some && (cmd == Command::InputDropWord ==> self.filter_cursor_col
            <= self.input_buffer.len()) && (cmd is InputInsert ==> self.filter_cursor_col < usize::MAX) {
            self.edited(cmd)->0
        } else {
            self
        }
    }

    /// Half a screen.
    pub open spec fn half(self) -> int {
        arith::greater(self.viewport_height / 2, 1)
    }

    /// The state once a command has moved the cursor.
    #[verifier::opaque]
    pub open spec fn moved(self, cmd: Command) -> StateView {
        match cmd {
            Command::ToggleFold => self.fold_toggled(),
            Command::WordForward => self.moved_word_forward(),
            Command::WordBackward => self.moved_word_backward(),
            Command::WordEnd => self.moved_word_end(),
            Command::Down(n) => self.moved_down(n as int),
            Command::Up(n) => self.moved_up(n as int),
            Command::Left(n) => self.moved_left(n as int),
            Command::Right(n) => self.moved_right(n as int),
            Command::LineStart => (StateView { cursor_col: 0, ..self }).h_adjusted(),
            Command::LineEnd => (StateView { cursor_col: arith::less(self.max_line(), 1), ..self }).h_adjusted(),
            Command::HalfDown => self.moved_down(self.half()),
            Command::HalfUp => self.moved_up(self.half()),
            Command::Bottom => StateView { sticky: true, ..self.moved_to_bottom() },
            Command::Top => StateView { sticky: false, ..self.moved_to_top() },
            _ => self,
        }
    }

    /// The state once a command has gone about the menu, the prompt or the selection.
    #[verifier::opaque]
    pub open spec fn attended(self, cmd: Command) -> StateView {
        match cmd {
            Command::LeavePrompt => self.prompt_left(),
            Command::CloseSearch => self.search_closed(),
            Command::CloseMenu => StateView { show_service_menu: false, ..self },
            Command::CloseMenuAndSearch => StateView {
                show_service_menu: false,
                show_service_search: false,
                ..self
            },
            Command::LeaveSelection => self.mode_left(),
            Command::MenuDown => self.menu_moved(true),
            Command::MenuUp => self.menu_moved(false),
            Command::SearchBack => self.searched(
                if self.service_search_query.len() > 0 {
                    self.service_search_query.drop_last()
                } else {
                    self.service_search_query
                },
            ),
            Command::SearchInsert(c) => self.searched(self.service_search_query.push(c)),
            Command::OpenSearch => StateView { show_service_search: true, service_search_query: seq![], ..self },
            Command::InputLeft => StateView { filter_cursor_col: arith::less(self.filter_cursor_col, 1), ..self },
            Command::InputRight => if self.filter_cursor_col < self.input_buffer.len() {
                StateView { filter_cursor_col: self.filter_cursor_col + 1, ..self }
            } else {
                self
            },
            Command::InputStart => StateView { filter_cursor_col: 0, ..self },
            Command::InputEnd => StateView { filter_cursor_col: self.input_buffer.len() as int, ..self },
            Command::OpenMenu => StateView { show_service_menu: true, ..self },
            Command::Select(mode) => self.mode_toggled(mode),
            _ => self,
        }
    }

    /// The state once a command has been carried out.
    pub open spec fn done(self, cmd: Command, now: u64) -> StateView {
        if cmd == Command::Copy {
            self.copied()
        } else if cmd == Command::ApplyFilter {
            self.filter_set().recomputed(now).prompt_left()
        } else if cmd.switches() {
            match self.switched(cmd) {
                Some(s) => s.recomputed(now),
                None => self,
            }
        } else if cmd.edits() {
            match self.edited(cmd) {
                Some(s) => s.live_updated(),
                None => self,
            }
        } else if cmd.moves() {
            self.moved(cmd)
        } else {
            self.attended(cmd)
        }
    }
}

impl Command {
    /// Whether the command switches services.
    pub open spec fn switches(self) -> bool {
        self is FlipService || self is OnlyService || self is AllServices
    }

    /// Whether the lines to show are worked out anew.
    pub open spec fn recomputes(self) -> bool {
        self.switches() || self is ApplyFilter
    }

    /// Whether the command changes what is typed.
    pub open spec fn edits(self) -> bool {
        self is InputDelete || self is InputBack || self is InputClear || self is InputDropWord || self is InputInsert
            || self is OpenPrompt
    }

    /// Whether the command moves the cursor.
    pub open spec fn moves(self) -> bool {
        self is ToggleFold || self is WordForward || self is WordBackward || self is WordEnd || self is Down
            || self is Up || self is Left || self is Right || self is LineStart || self is LineEnd
            || self is HalfDown || self is HalfUp || self is Bottom || self is Top
    }
}

impl AppState {
    pub(crate) fn leave_prompt(&mut self)
        ensures
            final(self)@ == old(self)@.prompt_left(),
    {
        self.prompt_mode = PromptMode::Off;
        self.input_buffer = String::new();
        self.filter_cursor_col = 0;
        self.live_filter_ast = None;
    }

    fn search_for(&mut self, query: String)
        ensures
            final(self)@ == old(self)@.searched(query@),
    {
        self.service_search_query = query;
        self.update_service_search();
    }

    fn search_back(&mut self)
        ensures
            final(self)@ == old(self)@.attended(Command::SearchBack),
    {
        reveal(StateView::attended);
        let mut v = chars_of(self.service_search_query.as_str());
        let ghost before = v@;
        if v.len() > 0 {
            v.pop();
            assert(v@ =~= before.drop_last());
        }
        self.search_for(string_of(v.as_slice()));
    }

    fn move_menu(&mut self, down: bool)
        ensures
            final(self)@ == old(self)@.menu_moved(down),
    {
        let n: usize = self.filtered_service_indices().len();
        if n > 0 {
            let at: u128 = self.service_menu_selected_idx as u128;
            let to: u128 = if down {
                (at + 1) % (n as u128)
            } else {
                (at + n as u128 - 1) % (n as u128)
            };
            self.service_menu_selected_idx = to as usize;
        }
    }

    fn menu_service(&self) -> (r: Option<usize>)
        ensures
            r == self@.menu_service(),
            r matches Some(k) ==> k < self.service_options@.len(),
    {
        let rows = self.filtered_service_indices();
        let total: usize = self.service_options.len();
        proof {
            assert(self@.service_options.len() == total);
            lemma_found_services(self@, self@.service_options.len() as int);
        }
        if self.service_menu_selected_idx < rows.len() {
            Some(rows[self.service_menu_selected_idx])
        } else {
            None
        }
    }

    fn flip_service(&mut self)
        ensures
            final(self)@ == old(self)@.service_flipped(),
    {
        let ghost start = self@;
        match self.menu_service() {
            Some(k) => {
                let on: bool = self.service_options[k].enabled;
                self.service_options[k].enabled = !on;
                assert(self@.service_options =~= start.service_options.update(
                    k as int,
                    ServiceView { enabled: !on, ..start.service_options[k as int] },
                ));
            },
            None => {},
        }
    }

    /// Switches every service on or off; `alone` names the one to switch on, if only one is.
    fn switch_services(&mut self, on: bool, alone: Option<usize>)
        ensures
            final(self)@ == old(self)@.services_switched(
                |i: int|
                    match alone {
                        Some(k) => i == k,
                        None => on,
                    },
            ),
    {
        let ghost start = self@;
        let ghost want = |i: int|
            match alone {
                Some(k) => i == k,
                None => on,
            };
        let mut i: usize = 0;
        while i < self.service_options.len()
            invariant
                i <= self.service_options@.len(),
                start == old(self)@,
                want == (|i: int|
                    match alone {
                        Some(k) => i == k,
                        None => on,
                    }),
                self.service_options@.len() == start.service_options.len(),
                self@ == (StateView { service_options: self@.service_options, ..start }),
                forall|j: int|
                    0 <= j < self.service_options@.len() ==> #[trigger] self@.service_options[j] == (if j < i {
                        ServiceView { enabled: want(j), ..start.service_options[j] }
                    } else {
                        start.service_options[j]
                    }),
            decreases self.service_options@.len() - i,
        {
            let ghost before = self@;
            assert(self@.service_options[i as int] == self.service_options@[i as int]@);
            let enabled: bool = match alone {
                Some(k) => i == k,
                None => on,
            };
            self.service_options[i].enabled = enabled;
            assert forall|j: int| 0 <= j < self.service_options@.len() implies #[trigger] self@.service_options[j]
                == (if j < i + 1 {
                ServiceView { enabled: want(j), ..start.service_options[j] }
            } else {
                start.service_options[j]
            }) by {
                assert(before.service_options[j] == (if j < i {
                    ServiceView { enabled: want(j), ..start.service_options[j] }
                } else {
                    start.service_options[j]
                }));
            }
            i += 1;
        }
        assert(self@.service_options =~= start.services_switched(want).service_options);
    }

    /// Switches services as a command tells.
    pub(crate) fn switch(&mut self, cmd: Command)
        requires
            old(self)@.switched(cmd) is Some,
        ensures
            Some(final(self)@) == old(self)@.switched(cmd),
    {
        let ghost start = self@;
        match cmd {
            Command::FlipService => self.flip_service(),
            Command::OnlyService => {
                match self.menu_service() {
                    Some(k) => {
                        self.switch_services(false, Some(k));
                        assert(self@.service_options =~= start.service_alone().service_options);
                    },
                    None => {},
                }
            },
            Command::AllServices(on) => {
                self.switch_services(on, None);
                assert(self@.service_options =~= start.services_switched(|i: int| on).service_options);
            },
            _ => {},
        }
    }

    pub(crate) fn set_filter(&mut self)
        requires
            query::query_fits(text::trimmed(old(self)@.input_buffer)),
        ensures
            final(self)@ == old(self)@.filter_set(),
    {
        let v = chars_of(self.input_buffer.as_str());
        let t = string_of(strip(v.as_slice(), Class::Space));
        if t.as_str().unicode_len() == 0 {
            self.filter_ast = None;
            self.active_filter_str = None;
        } else {
            self.filter_ast = match Query::parse(t.as_str()) {
                Ok(q) => Some(q),
                Err(_) => None,
            };
            self.active_filter_str = Some(t);
        }
        self.live_filter_ast = None;
    }

    /// Changes the input as a command tells; whether it changed a character.
    pub(crate) fn edit(&mut self, cmd: Command) -> (r: bool)
        requires
            cmd == Command::InputDropWord ==> old(self)@.filter_cursor_col <= old(self)@.input_buffer.len(),
            cmd is InputInsert ==> old(self)@.filter_cursor_col < usize::MAX,
        ensures
            r == (old(self)@.edited(cmd) is Some),
            final(self)@ == (match old(self)@.edited(cmd) {
                Some(s) => s,
                None => old(self)@,
            }),
    {
        let mut v = chars_of(self.input_buffer.as_str());
        let ghost input = v@;
        let col: usize = self.filter_cursor_col;
        match cmd {
            Command::InputDelete => {
                if col >= v.len() {
                    return false;
                }
                v.remove(col);
                assert(v@ =~= input.remove(col as int));
            },
            Command::InputBack => {
                if col == 0 || col > v.len() {
                    return false;
                }
                v.remove(col - 1);
                assert(v@ =~= input.remove(col - 1));
                self.filter_cursor_col = col - 1;
            },
            Command::InputClear => {
                v = Vec::new();
                self.filter_cursor_col = 0;
            },
            Command::InputDropWord => {
                let i: usize = scan_backward(
                    v.as_slice(),
                    scan_backward(v.as_slice(), col, Class::Space),
                    Class::NotSpace,
                );
                let mut kept: Vec<char> = Vec::new();
                kept.extend_from_slice(slice_subrange(v.as_slice(), 0, i));
                kept.extend_from_slice(slice_subrange(v.as_slice(), col, v.len()));
                assert(kept@ =~= input.take(i as int) + input.skip(col as int));
                v = kept;
                self.filter_cursor_col = i;
            },
            Command::InputInsert(c) => {
                let at: usize = min_of(col, v.len());
                v.insert(at, c);
                self.filter_cursor_col = col + 1;
            },
            Command::OpenPrompt => {
                self.prompt_mode = PromptMode::Filter;
                v = match &self.active_filter_str {
                    Some(a) => chars_of(a.as_str()),
                    None => Vec::new(),
                };
                self.filter_cursor_col = v.len();
            },
            _ => return false,
        }
        self.input_buffer = string_of(v.as_slice());
        true
    }

    /// Copies what is selected and leaves the selection.
    fn copy_selection(&mut self) -> (r: Option<String>)
        requires
            old(self)@.copies() ==> old(self)@.selection_fits(),
        ensures
            final(self)@ == old(self)@.copied(),
            logitem::opt_view(r) == old(self)@.text_to_copy(Command::Copy),
    {
        if self.visual_mode != VisualMode::Off || !self.toggled_lines.is_empty() {
            let text = self.get_selected_text();
            if text.is_some() {
                self.set_copied_notification();
            }
            self.toggled_lines.clear();
            self.exit_visual_mode();
            text
        } else {
            None
        }
    }

    /// Carries out a command that moves the cursor.
    fn perform_motion(&mut self, cmd: Command)
        requires
            old(self)@.motion_fits(cmd),
        ensures
            final(self)@ == old(self)@.moved(cmd),
    {
        reveal(StateView::moved);
        match cmd {
            Command::ToggleFold => self.toggle_line_fold(),
            Command::WordForward => self.move_word_forward(),
            Command::WordBackward => self.move_word_backward(),
            Command::WordEnd => self.move_word_end(),
            Command::Down(n) => self.move_down(n),
            Command::Up(n) => self.move_up(n),
            Command::Left(n) => self.move_left(n),
            Command::Right(n) => self.move_right(n),
            Command::LineStart => {
                proof {
                    lemma_same_lines(self@, StateView { cursor_col: 0, ..self@ });
                }
                self.cursor_col = 0;
                self.adjust_h_scroll();
            },
            Command::LineEnd => {
                let col: usize = self.max_line_len().saturating_sub(1);
                proof {
                    lemma_same_lines(self@, StateView { cursor_col: col as int, ..self@ });
                }
                self.cursor_col = col;
                self.adjust_h_scroll();
            },
            Command::HalfDown => self.move_down(max_of(self.viewport_height / 2, 1)),
            Command::HalfUp => self.move_up(max_of(self.viewport_height / 2, 1)),
            Command::Bottom => {
                self.move_to_bottom();
                self.sticky = true;
            },
            Command::Top => {
                self.move_to_top();
                self.sticky = false;
            },
            _ => {},
        }
    }

    /// Carries out a command of the menu or the prompt that changes no line shown.
    fn perform_dialog(&mut self, cmd: Command)
        ensures
            final(self)@ == old(self)@.attended(cmd),
    {
        reveal(StateView::attended);
        match cmd {
            Command::LeavePrompt => self.leave_prompt(),
            Command::CloseSearch => {
                self.show_service_search = false;
                self.search_for(String::new());
            },
            Command::CloseMenu => {
                self.show_service_menu = false;
            },
            Command::CloseMenuAndSearch => {
                self.show_service_menu = false;
                self.show_service_search = false;
            },
            Command::LeaveSelection => self.exit_visual_mode(),
            Command::MenuDown => self.move_menu(true),
            Command::MenuUp => self.move_menu(false),
            Command::SearchBack => self.search_back(),
            Command::SearchInsert(c) => {
                let mut q = self.service_search_query.clone();
                q.push(c);
                self.search_for(q);
            },
            Command::OpenSearch => {
                self.show_service_search = true;
                self.service_search_query = String::new();
            },
            Command::InputLeft => {
                self.filter_cursor_col = self.filter_cursor_col.saturating_sub(1);
            },
            Command::InputRight => {
                if self.filter_cursor_col < self.input_buffer.as_str().unicode_len() {
                    self.filter_cursor_col = self.filter_cursor_col + 1;
                }
            },
            Command::InputStart => {
                self.filter_cursor_col = 0;
            },
            Command::InputEnd => {
                self.filter_cursor_col = self.input_buffer.as_str().unicode_len();
            },
            Command::OpenMenu => {
                self.show_service_menu = true;
            },
            Command::Select(mode) => self.toggle_visual_mode(mode),
            _ => {},
        }
    }

    /// Carries out a command, with ages counted from the given point in time. The
    /// text to put on the clipboard, if there is one.
    pub fn perform_at(&mut self, cmd: Command, now: u64) -> (r: Option<String>)
        requires
            old(self)@.can_do(cmd, now),
        ensures
            final(self)@ == old(self)@.done(cmd, now),
            logitem::opt_view(r) == old(self)@.text_to_copy(cmd),
    {
        match cmd {
            Command::Copy => return self.copy_selection(),
            Command::FlipService | Command::OnlyService | Command::AllServices(_) => {
                self.switch(cmd);
                self.recompute_visible_indices_at(now);
            },
            Command::ApplyFilter => {
                self.set_filter();
                self.recompute_visible_indices_at(now);
                self.leave_prompt();
            },
            Command::InputDelete | Command::InputBack | Command::InputClear | Command::InputDropWord
            | Command::InputInsert(_) | Command::OpenPrompt => {
                if self.edit(cmd) {
                    self.update_live_filter();
                }
            },
            Command::ToggleFold | Command::WordForward | Command::WordBackward | Command::WordEnd | Command::Down(_)
            | Command::Up(_) | Command::Left(_) | Command::Right(_) | Command::LineStart | Command::LineEnd
            | Command::HalfDown | Command::HalfUp | Command::Bottom | Command::Top => self.perform_motion(cmd),
            _ => self.perform_dialog(cmd),
        }
        None
    }
}

} // verus!
