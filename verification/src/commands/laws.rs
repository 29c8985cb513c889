//! What commands do to one another, and which keys give them.

use super::ingest;
use super::keys::{self, Command, Focus, Key, KeyCode, Mods};
use super::level;
use super::outcome::{Mouse, MouseKind};
use crate::ansi;
use crate::docker::clock::{self, Moment};
use crate::docker::wire::MsgView;
use crate::query;
use crate::service::ServiceView;
use crate::state::view::{PromptMode, StateView, VisualMode};
use crate::text::{self, Class};
use vstd::prelude::*;

verus! {

// ---------------------------------------------------------------------------
// Typing
// ---------------------------------------------------------------------------

/// A character that is typed stands where the cursor was, with the cursor behind it;
/// taking it back, or going left and deleting it, restores the input.
pub proof fn law_typing_is_undone(s: StateView, c: char)
    requires
        0 <= s.filter_cursor_col <= s.input_buffer.len(),
    ensures
        s.edited(Command::InputInsert(c)) matches Some(t) && {
            let left = t.attended(Command::InputLeft);
            &&& t.input_buffer.len() == s.input_buffer.len() + 1
            &&& t.input_buffer[s.filter_cursor_col] == c
            &&& t.filter_cursor_col == s.filter_cursor_col + 1
            &&& t.edited(Command::InputBack) == Some(s)
            &&& left.edited(Command::InputDelete) == Some(s)
        },
{
    reveal(StateView::attended);
    let t = s.edited(Command::InputInsert(c))->0;
    let col = s.filter_cursor_col;
    assert(t.input_buffer.remove(col) =~= s.input_buffer);
    assert(t.edited(Command::InputBack)->0 =~= s);
    assert(t.attended(Command::InputLeft).edited(Command::InputDelete)->0 =~= s);
}

/// What is deleted is the character under the cursor, what is taken back the one before it.
pub proof fn law_character_deleted(s: StateView)
    requires
        0 <= s.filter_cursor_col <= s.input_buffer.len(),
    ensures
        s.filter_cursor_col < s.input_buffer.len() ==> (s.edited(Command::InputDelete) matches Some(t) && {
            &&& t.filter_cursor_col == s.filter_cursor_col
            &&& t.edited(Command::InputInsert(s.input_buffer[s.filter_cursor_col])) matches Some(u)
            &&& u.input_buffer == s.input_buffer
        }),
        s.filter_cursor_col > 0 ==> (s.edited(Command::InputBack) matches Some(t) && t.edited(
            Command::InputInsert(s.input_buffer[s.filter_cursor_col - 1]),
        ) == Some(s)),
        s.filter_cursor_col == s.input_buffer.len() ==> s.edited(Command::InputDelete) is None,
        s.filter_cursor_col == 0 ==> s.edited(Command::InputBack) is None,
{
    let input = s.input_buffer;
    let col = s.filter_cursor_col;
    if col < input.len() {
        assert(input.remove(col).insert(col, input[col]) =~= input);
    }
    if col > 0 {
        assert(input.remove(col - 1).insert(col - 1, input[col - 1]) =~= input);
        let t = s.edited(Command::InputBack)->0;
        assert(t.edited(Command::InputInsert(input[col - 1]))->0 =~= s);
    }
}

/// Dropping a word takes away the blanks before the cursor and the word before them,
/// and nothing else.
pub proof fn law_word_dropped(s: StateView) -> (m: int)
    requires
        0 <= s.filter_cursor_col <= s.input_buffer.len(),
    ensures
        s.edited(Command::InputDropWord) matches Some(t) && {
            let input = s.input_buffer;
            let w = t.filter_cursor_col;
            &&& 0 <= w <= m <= s.filter_cursor_col
            &&& t.input_buffer == input.take(w) + input.skip(s.filter_cursor_col)
            &&& forall|i: int| m <= i < s.filter_cursor_col ==> text::whitespace(#[trigger] input[i])
            &&& forall|i: int| w <= i < m ==> !text::whitespace(#[trigger] input[i])
            &&& w == 0 || text::whitespace(input[w - 1])
            &&& m == w ==> w == 0
        },
{
    let input = s.input_buffer;
    let m = text::run_start(input, s.filter_cursor_col, Class::Space);
    text::lemma_run_start(input, s.filter_cursor_col, Class::Space);
    text::lemma_run_start(input, m, Class::NotSpace);
    m
}

/// In the input, left and right undo each other, and the two ends are its ends.
pub proof fn law_input_moves(s: StateView)
    requires
        0 <= s.filter_cursor_col <= s.input_buffer.len(),
    ensures
        s.filter_cursor_col > 0 ==> s.attended(Command::InputLeft).filter_cursor_col < s.filter_cursor_col
            && s.attended(Command::InputLeft).attended(Command::InputRight) == s,
        s.filter_cursor_col < s.input_buffer.len() ==> s.attended(Command::InputRight).attended(Command::InputLeft)
            == s,
        s.attended(Command::InputStart).filter_cursor_col == 0,
        s.attended(Command::InputEnd).filter_cursor_col == s.input_buffer.len(),
        s.attended(Command::InputEnd).attended(Command::InputRight) == s.attended(Command::InputEnd),
        s.attended(Command::InputStart).attended(Command::InputLeft) == s.attended(Command::InputStart),
{
    reveal(StateView::attended);
}

/// What is tried out while it is typed is what is put to use when it is applied.
pub proof fn law_live_filter_is_applied(s: StateView)
    requires
        s.prompt_mode == PromptMode::Filter,
    ensures
        s.filter_set().filter_ast == s.live_updated().live_filter_ast,
        s.filter_set().live_filter_ast is None,
        query::query_of(text::trimmed(s.input_buffer)) matches Ok(q) ==> text::trimmed(s.input_buffer).len() > 0
            ==> s.filter_set().filter_ast == Some(q),
        text::trimmed(s.input_buffer).len() == 0 ==> s.filter_set().filter_ast is None,
{
}

/// A filter that was applied stands in the prompt when it is opened again, with the
/// cursor behind it, and applying it again changes nothing; an empty one is no filter.
pub proof fn law_applied_filter_comes_back(s: StateView, now: u64)
    requires
        text::trimmed(text::trimmed(s.input_buffer)) == text::trimmed(s.input_buffer),
    ensures
        ({
            let done = s.done(Command::ApplyFilter, now);
            &&& done.prompt_mode == PromptMode::Off
            &&& done.input_buffer.len() == 0
            &&& done.edited(Command::OpenPrompt) matches Some(t)
            &&& t.prompt_mode == PromptMode::Filter
            &&& t.input_buffer == text::trimmed(s.input_buffer)
            &&& t.filter_cursor_col == t.input_buffer.len()
            &&& t.filter_set().filter_ast == done.filter_ast
            &&& t.filter_set().active_filter_str == done.active_filter_str
            &&& done.active_filter_str is None == (text::trimmed(s.input_buffer).len() == 0)
        }),
{
    reveal(StateView::place_kept);
    let t = text::trimmed(s.input_buffer);
    if t.len() == 0 {
        assert(t =~= Seq::<char>::empty());
    }
}

/// Leaving the prompt forgets what was typed and keeps the filter.
pub proof fn law_prompt_left_keeps_filter(s: StateView)
    ensures
        ({
            let t = s.attended(Command::LeavePrompt);
            &&& t.prompt_mode == PromptMode::Off
            &&& t.input_buffer.len() == 0
            &&& t.live_filter_ast is None
            &&& t.filter_ast == s.filter_ast
            &&& t.active_filter_str == s.active_filter_str
            &&& t.visible_indices == s.visible_indices
        }),
{
    reveal(StateView::attended);
}

// ---------------------------------------------------------------------------
// The menu of services
// ---------------------------------------------------------------------------

/// The services in the menu are those whose name holds what is searched, whatever the
/// case, in order; without a search they are all there.
pub proof fn law_menu_lists_matches(s: StateView, n: int)
    requires
        0 <= n <= s.service_options.len(),
        s.service_options.len() <= usize::MAX,
    ensures
        forall|i: int, j: int|
            0 <= i < j < s.found_services(n).len() ==> #[trigger] s.found_services(n)[i]
                < #[trigger] s.found_services(n)[j],
        forall|k: usize|
            s.found_services(n).contains(k) <==> k < n && (!s.show_service_search || s.service_search_query.len() == 0
                || text::contains(
                text::lowercase((#[trigger] s.service_options[k as int]).name),
                text::lowercase(s.service_search_query),
            )),
    decreases n,
{
    let found = s.found_services(n);
    if n > 0 {
        law_menu_lists_matches(s, n - 1);
        let before = s.found_services(n - 1);
        crate::state::view::lemma_found_services(s, n - 1);
        assert forall|k: usize| found.contains(k) <==> k < n && s.service_found(k as int) by {
            if before.contains(k) {
                let i = choose|i: int| 0 <= i < before.len() && before[i] == k;
                assert(found[i] == k);
            }
            if found.contains(k) && k < n - 1 {
                let i = choose|i: int| 0 <= i < found.len() && found[i] == k;
                assert(before[i] == k);
            }
            if s.service_found(n - 1) {
                assert(found[before.len() as int] == (n - 1) as usize);
            } else {
                assert(found == before);
            }
            assert(before.contains(k) <==> k < n - 1 && s.service_found(k as int)) by {
                let name = s.service_options[k as int].name;
                assert(before.contains(k) <==> k < n - 1 && (!s.show_service_search || s.service_search_query.len()
                    == 0 || text::contains(text::lowercase(name), text::lowercase(s.service_search_query))));
            }
        }
        assert forall|i: int, j: int| 0 <= i < j < found.len() implies #[trigger] found[i] < #[trigger] found[j] by {
            assert(found[i] == before[i]);
            if j < before.len() {
                assert(found[j] == before[j]);
            } else {
                assert(before[i] < n - 1);
            }
        }
        assert forall|k: usize|
            found.contains(k) <==> k < n && (!s.show_service_search || s.service_search_query.len() == 0
                || text::contains(
                text::lowercase((#[trigger] s.service_options[k as int]).name),
                text::lowercase(s.service_search_query),
            )) by {
            assert(found.contains(k) <==> k < n && s.service_found(k as int));
        }
    }
}

/// In the menu, down goes to the next service and from the last to the first; up undoes it.
pub proof fn law_menu_goes_round(s: StateView)
    requires
        0 <= s.service_menu_selected_idx < s.service_rows().len(),
    ensures
        ({
            let n = s.service_rows().len() as int;
            let down = s.attended(Command::MenuDown);
            let up = s.attended(Command::MenuUp);
            &&& s.service_menu_selected_idx + 1 < n ==> down.service_menu_selected_idx == s.service_menu_selected_idx
                + 1
            &&& s.service_menu_selected_idx + 1 == n ==> down.service_menu_selected_idx == 0
            &&& s.service_menu_selected_idx > 0 ==> up.service_menu_selected_idx == s.service_menu_selected_idx - 1
            &&& s.service_menu_selected_idx == 0 ==> up.service_menu_selected_idx == n - 1
            &&& down.attended(Command::MenuUp) == s
            &&& up.attended(Command::MenuDown) == s
        }),
{
    reveal(StateView::attended);
    let n = s.service_rows().len() as int;
    let i = s.service_menu_selected_idx;
    let down = s.attended(Command::MenuDown);
    let up = s.attended(Command::MenuUp);
    lemma_same_services(s, down, s.service_options.len() as int);
    lemma_same_services(s, up, s.service_options.len() as int);
    assert((i + 1) % n == (if i + 1 == n { 0 } else { i + 1 })) by (nonlinear_arith)
        requires
            0 <= i < n,
    ;
    assert((i + n - 1) % n == (if i == 0 { n - 1 } else { i - 1 })) by (nonlinear_arith)
        requires
            0 <= i < n,
    {
        if i > 0 {
            assert((i + n - 1) == (i - 1) + n * 1);
            vstd::arithmetic::div_mod::lemma_mod_multiples_vanish(1, i - 1, n);
            vstd::arithmetic::div_mod::lemma_small_mod((i - 1) as nat, n as nat);
        } else {
            vstd::arithmetic::div_mod::lemma_small_mod((n - 1) as nat, n as nat);
        }
    }
    let j = down.service_menu_selected_idx;
    let k = up.service_menu_selected_idx;
    assert((j + n - 1) % n == (if j == 0 { n - 1 } else { j - 1 })) by (nonlinear_arith)
        requires
            0 <= j < n,
    {
        if j > 0 {
            assert((j + n - 1) == (j - 1) + n * 1);
            vstd::arithmetic::div_mod::lemma_mod_multiples_vanish(1, j - 1, n);
            vstd::arithmetic::div_mod::lemma_small_mod((j - 1) as nat, n as nat);
        } else {
            vstd::arithmetic::div_mod::lemma_small_mod((n - 1) as nat, n as nat);
        }
    }
    assert((k + 1) % n == (if k + 1 == n { 0 } else { k + 1 })) by (nonlinear_arith)
        requires
            0 <= k < n,
    ;
}

/// The services that are found rest on their names and on the search alone.
proof fn lemma_same_services(s: StateView, t: StateView, n: int)
    requires
        t.service_options.len() == s.service_options.len(),
        forall|i: int| 0 <= i < s.service_options.len() ==> (#[trigger] t.service_options[i]).name
            == s.service_options[i].name,
        t.show_service_search == s.show_service_search,
        t.service_search_query == s.service_search_query,
    ensures
        t.found_services(n) == s.found_services(n),
    decreases n,
{
    if 0 < n <= s.service_options.len() {
        lemma_same_services(s, t, n - 1);
        assert(t.service_options[n - 1].name == s.service_options[n - 1].name);
    }
}

/// Flipping the selected service switches it and no other, and flipping it again
/// restores it.
pub proof fn law_flip_switches_one(s: StateView, k: usize)
    requires
        s.menu_service() == Some(k),
        k < s.service_options.len(),
    ensures
        ({
            let t = s.service_flipped();
            &&& t.service_options.len() == s.service_options.len()
            &&& t.service_options[k as int].enabled == !s.service_options[k as int].enabled
            &&& t.service_options[k as int].name == s.service_options[k as int].name
            &&& forall|i: int|
                0 <= i < s.service_options.len() && i != k ==> #[trigger] t.service_options[i] == s.service_options[i]
            &&& t.service_flipped() == s
        }),
{
    let t = s.service_flipped();
    lemma_same_services(s, t, s.service_options.len() as int);
    assert(t.menu_service() == Some(k));
    assert(t.service_flipped().service_options =~= s.service_options);
}

/// Choosing one service alone switches it on and all others off; choosing all, or
/// none, switches all alike. Nothing else of the services changes.
pub proof fn law_services_switched(s: StateView, k: usize, on: bool)
    requires
        s.menu_service() == Some(k),
        k < s.service_options.len(),
    ensures
        ({
            let one = s.switched(Command::OnlyService);
            let all = s.switched(Command::AllServices(on));
            &&& one is Some && all is Some
            &&& one->0.service_options.len() == s.service_options.len() == all->0.service_options.len()
            &&& forall|i: int|
                0 <= i < s.service_options.len() ==> (#[trigger] one->0.service_options[i]).enabled == (i == k)
            &&& forall|i: int|
                0 <= i < s.service_options.len() ==> (#[trigger] all->0.service_options[i]).enabled == on
            &&& forall|i: int|
                0 <= i < s.service_options.len() ==> (#[trigger] one->0.service_options[i]).name
                    == s.service_options[i].name && one->0.service_options[i].id == s.service_options[i].id
            &&& forall|i: int|
                0 <= i < s.service_options.len() ==> (#[trigger] all->0.service_options[i]).name
                    == s.service_options[i].name && all->0.service_options[i].is_running
                    == s.service_options[i].is_running
        }),
{
}

/// In the search, a character that is typed is added at the end and taken back from
/// there; a new search begins empty, and closing it forgets it.
pub proof fn law_search_is_typed(s: StateView, c: char)
    ensures
        ({
            let t = s.attended(Command::SearchInsert(c));
            &&& t.service_search_query == s.service_search_query.push(c)
            &&& t.attended(Command::SearchBack).service_search_query == s.service_search_query
            &&& s.attended(Command::OpenSearch).show_service_search
            &&& s.attended(Command::OpenSearch).service_search_query.len() == 0
            &&& !s.attended(Command::CloseSearch).show_service_search
            &&& s.attended(Command::CloseSearch).service_search_query.len() == 0
            &&& s.attended(Command::CloseSearch).show_service_menu == s.show_service_menu
        }),
{
    reveal(StateView::attended);
    assert(s.service_search_query.push(c).drop_last() =~= s.service_search_query);
}

/// A search leaves the selection on a service that is found.
pub proof fn law_search_keeps_selection(s: StateView, query: Seq<char>)
    requires
        0 <= s.service_menu_selected_idx,
    ensures
        ({
            let t = s.searched(query);
            let n = t.service_rows().len() as int;
            &&& n > 0 ==> t.service_menu_selected_idx < n
            &&& n == 0 ==> t.service_menu_selected_idx == 0
            &&& s.service_menu_selected_idx < n ==> t.service_menu_selected_idx == s.service_menu_selected_idx
        }),
{
    let q = StateView { service_search_query: query, ..s };
    lemma_same_services(q, s.searched(query), s.service_options.len() as int);
}

/// The menu that is opened is open, the one that is closed is not; closing it with the
/// search closes both.
pub proof fn law_menu_opens_and_closes(s: StateView)
    ensures
        s.attended(Command::OpenMenu).show_service_menu,
        !s.attended(Command::CloseMenu).show_service_menu,
        s.attended(Command::OpenMenu).attended(Command::CloseMenu) == s.attended(Command::CloseMenu),
        !s.attended(Command::CloseMenuAndSearch).show_service_menu,
        !s.attended(Command::CloseMenuAndSearch).show_service_search,
        s.attended(Command::CloseMenuAndSearch).service_options == s.service_options,
{
    reveal(StateView::attended);
}

// ---------------------------------------------------------------------------
// Moving and copying
// ---------------------------------------------------------------------------

/// Half a screen is half its rows, at least one; the ends are the first and the last
/// row, and only the last one is followed from then on.
pub proof fn law_long_moves(s: StateView)
    requires
        0 <= s.cursor_row < s.visible_count(),
        s.viewport_height >= 0,
    ensures
        ({
            let down = s.moved(Command::HalfDown);
            let up = s.moved(Command::HalfUp);
            let step = if s.viewport_height < 2 {
                1
            } else {
                s.viewport_height / 2
            };
            &&& s.cursor_row + step < s.visible_count() ==> down.cursor_row == s.cursor_row + step
            &&& s.cursor_row + step >= s.visible_count() ==> down.cursor_row == s.visible_count() - 1
            &&& step <= s.cursor_row ==> up.cursor_row == s.cursor_row - step
            &&& step > s.cursor_row ==> up.cursor_row == 0
            &&& s.moved(Command::Bottom).cursor_row == s.visible_count() - 1
            &&& s.moved(Command::Bottom).sticky
            &&& s.moved(Command::Top).cursor_row == 0
            &&& !s.moved(Command::Top).sticky
        }),
{
    reveal(StateView::moved);
    reveal(StateView::v_adjusted);
}

/// The start of a line is its first column; its end lies at or behind the last column
/// of every line.
pub proof fn law_line_ends(s: StateView, i: int)
    requires
        0 <= i < s.logs.len(),
        s.viewport_width >= 0,
    ensures
        s.moved(Command::LineStart).cursor_col == 0,
        s.moved(Command::LineStart).cursor_row == s.cursor_row,
        s.moved(Command::LineEnd).cursor_row == s.cursor_row,
        s.moved(Command::LineEnd).cursor_col >= s.logs[i].full_line().len() - 1,
{
    reveal(StateView::moved);
    reveal(StateView::h_adjusted);
    crate::state::moves::law_longest_is_longest(s.logs, s.logs.len() as int);
}

/// Where something is selected or marked, copying it puts it on the clipboard, says so,
/// and leaves nothing selected or marked; else it does nothing.
pub proof fn law_copy_takes_selection(s: StateView)
    ensures
        ({
            let t = s.done(Command::Copy, 0);
            &&& s.copies() ==> {
                &&& s.text_to_copy(Command::Copy) == s.selected_text()
                &&& t.visual_mode == VisualMode::Off
                &&& t.visual_anchor is None
                &&& t.toggled_lines =~= Set::<usize>::empty()
                &&& s.selected_text() is Some ==> t.clipboard_notice == Some("Copied to clipboard"@)
                &&& !t.copies()
            }
            &&& !s.copies() ==> t == s && s.text_to_copy(Command::Copy) is None
            &&& t.cursor_row == s.cursor_row
            &&& t.logs == s.logs
        }),
        forall|cmd: Command| cmd != Command::Copy ==> #[trigger] s.text_to_copy(cmd) is None,
{
}

// ---------------------------------------------------------------------------
// The mouse
// ---------------------------------------------------------------------------

/// A press begins a selection at the text under the mouse: of characters, or of whole
/// lines from the tag. A release ends it.
pub proof fn law_press_begins_selection(s: StateView, m: Mouse)
    requires
        m.kind == MouseKind::Down,
        !s.show_service_menu,
        0 <= s.pos_at(m.column as int, m.row as int).0 <= usize::MAX,
        0 <= s.pos_at(m.column as int, m.row as int).1 <= usize::MAX,
    ensures
        ({
            let t = s.after_mouse(m);
            let (r, c) = s.pos_at(m.column as int, m.row as int);
            &&& t.cursor_row == r
            &&& t.cursor_col == c
            &&& t.visual_anchor is Some
            &&& (t.visual_anchor->0).0 == r
            &&& t.visual_mode == VisualMode::Line || t.visual_mode == VisualMode::Character && (t.visual_anchor->0).1
                == c
            &&& !t.is_mouse_dragging
            &&& !t.sticky
            &&& t.dragged_text() is None
            &&& s.mouse_text(m) is None
        }),
{
    reveal(StateView::h_adjusted);
}

/// A drag takes the selection along to the text under the mouse.
pub proof fn law_drag_extends_selection(s: StateView, m: Mouse)
    requires
        m.kind == MouseKind::Drag,
        !s.show_service_menu,
    ensures
        ({
            let t = s.after_mouse(m);
            &&& (t.cursor_row, t.cursor_col) == s.pos_at(m.column as int, m.row as int)
            &&& t.visual_mode == s.visual_mode
            &&& t.visual_anchor == s.visual_anchor
            &&& t.is_mouse_dragging
            &&& t.last_mouse_pos == Some((m.column, m.row))
        }),
{
    reveal(StateView::h_adjusted);
}

/// A release behind a drag copies what is selected, if it is anything, and says so;
/// behind a mere press it copies nothing. Either way nothing stays selected.
pub proof fn law_release_copies_drag(s: StateView, m: Mouse)
    requires
        m.kind == MouseKind::Up,
        !s.show_service_menu,
    ensures
        ({
            let t = s.after_mouse(m);
            &&& t.visual_mode == VisualMode::Off && t.visual_anchor is None && !t.is_mouse_dragging
            &&& !s.is_mouse_dragging ==> s.mouse_text(m) is None
            &&& s.mouse_text(m) matches Some(copied) ==> copied.len() > 0 && s.selected_text() == Some(copied)
                && t.clipboard_notice == Some("Copied to clipboard"@)
            &&& s.is_mouse_dragging && s.visual_mode != VisualMode::Off ==> (s.selected_text() matches Some(all)
                ==> all.len() > 0 ==> s.mouse_text(m) == Some(all))
            &&& s.mouse_text(m) is None ==> t.clipboard_notice == s.clipboard_notice
            &&& t.cursor_row == s.cursor_row && t.cursor_col == s.cursor_col
        }),
{
}

/// The wheel moves by three rows and stops following the last one.
pub proof fn law_wheel_moves_three(s: StateView, m: Mouse)
    requires
        !s.show_service_menu,
        0 <= s.cursor_row,
    ensures
        m.kind == MouseKind::ScrollDown && s.cursor_row + 3 < s.visible_count() ==> s.after_mouse(m).cursor_row
            == s.cursor_row + 3,
        m.kind == MouseKind::ScrollUp && s.cursor_row >= 3 ==> s.after_mouse(m).cursor_row == s.cursor_row - 3,
        m.kind == MouseKind::ScrollUp && s.cursor_row < 3 ==> s.after_mouse(m).cursor_row == 0,
        m.kind == MouseKind::ScrollDown || m.kind == MouseKind::ScrollUp ==> !s.after_mouse(m).sticky && s.mouse_text(
            m,
        ) is None,
{
    reveal(StateView::v_adjusted);
}

/// The open menu keeps the mouse to itself, but a press beside it closes it and is
/// then taken as if it had not been open.
pub proof fn law_menu_keeps_mouse(s: StateView, m: Mouse)
    requires
        s.show_service_menu,
    ensures
        m.kind != MouseKind::Down ==> s.after_mouse(m) == s && s.mouse_text(m) is None,
        m.kind == MouseKind::Down && s.in_menu(m.column as int, m.row as int) ==> s.after_mouse(m) == s,
        m.kind == MouseKind::Down && !s.in_menu(m.column as int, m.row as int) ==> s.after_mouse(m) == (StateView {
            show_service_menu: false,
            show_service_search: false,
            ..s
        }).after_mouse(m),
{
}

// ---------------------------------------------------------------------------
// Keys
// ---------------------------------------------------------------------------

/// What a character typed into the prompt or the search does is to add it; while text
/// is typed no letter is taken for a command of the log.
pub proof fn law_letters_are_typed(focus: Focus, pending_g: bool, c: char, mods: Mods)
    ensures
        focus.prompt && !focus.menu && (mods == Mods::Plain || mods == Mods::Shift) ==> keys::command_for(
            focus,
            pending_g,
            (Key { code: KeyCode::Char(c), mods }),
        ) == (Command::InputInsert(c), pending_g),
        focus.menu && focus.search && mods == Mods::Plain ==> keys::command_for(
            focus,
            pending_g,
            (Key { code: KeyCode::Char(c), mods }),
        ) == (Command::SearchInsert(c), pending_g),
{
}

/// The arrows mean what the letters `h`, `j`, `k` and `l` mean, and with Control the
/// letters go five times as far.
pub proof fn law_arrows_are_letters(pending_g: bool)
    ensures
        keys::normal_command(Key { code: KeyCode::Down, mods: Mods::Plain }, pending_g) == keys::normal_command(
            Key { code: KeyCode::Char('j'), mods: Mods::Plain },
            pending_g,
        ),
        keys::normal_command(Key { code: KeyCode::Up, mods: Mods::Plain }, pending_g) == keys::normal_command(
            Key { code: KeyCode::Char('k'), mods: Mods::Plain },
            pending_g,
        ),
        keys::normal_command(Key { code: KeyCode::Left, mods: Mods::Plain }, pending_g) == keys::normal_command(
            Key { code: KeyCode::Char('h'), mods: Mods::Plain },
            pending_g,
        ),
        keys::normal_command(Key { code: KeyCode::Right, mods: Mods::Plain }, pending_g) == keys::normal_command(
            Key { code: KeyCode::Char('l'), mods: Mods::Plain },
            pending_g,
        ),
        keys::normal_command(Key { code: KeyCode::Char('j'), mods: Mods::Plain }, pending_g) matches Command::Down(n)
            && keys::normal_command(Key { code: KeyCode::Char('j'), mods: Mods::Control }, pending_g)
            == Command::Down((5 * n) as usize) && n == 1,
        keys::normal_command(Key { code: KeyCode::Char('k'), mods: Mods::Plain }, pending_g) matches Command::Up(n)
            && keys::normal_command(Key { code: KeyCode::Char('k'), mods: Mods::Control }, pending_g) == Command::Up(
            (5 * n) as usize,
        ) && n == 1,
        keys::normal_command(Key { code: KeyCode::Char('h'), mods: Mods::Plain }, pending_g) matches Command::Left(n)
            && keys::normal_command(Key { code: KeyCode::Char('h'), mods: Mods::Control }, pending_g)
            == Command::Left((5 * n) as usize) && n == 1,
        keys::normal_command(Key { code: KeyCode::Char('l'), mods: Mods::Plain }, pending_g) matches Command::Right(n)
            && keys::normal_command(Key { code: KeyCode::Char('l'), mods: Mods::Control }, pending_g)
            == Command::Right((5 * n) as usize) && n == 1,
{
}

/// Two `g`, one after the other, go to the top; any other key in between, or a third
/// one, begins anew.
pub proof fn law_two_g_go_to_top(focus: Focus, key: Key)
    requires
        !focus.menu,
        !focus.prompt,
    ensures
        ({
            let g = Key { code: KeyCode::Char('g'), mods: Mods::Plain };
            let (first, waits) = keys::command_for(focus, false, g);
            &&& first == Command::Nothing
            &&& waits
            &&& keys::command_for(focus, waits, g) == (Command::Top, false)
            &&& key != g ==> !keys::command_for(focus, waits, key).1 && keys::command_for(focus, waits, key).0
                == keys::command_for(focus, false, key).0
        }),
{
}

/// The key that opens the menu, the search or the prompt also closes it.
pub proof fn law_same_key_closes(pending_g: bool, selecting: bool)
    ensures
        ({
            let menu = Key { code: KeyCode::Char('s'), mods: Mods::Control };
            let find = Key { code: KeyCode::Char('f'), mods: Mods::Control };
            let log = Focus { prompt: false, menu: false, search: false, selecting };
            let in_menu = Focus { menu: true, ..log };
            let in_search = Focus { search: true, ..in_menu };
            let in_prompt = Focus { prompt: true, ..log };
            &&& keys::command_for(log, pending_g, menu).0 == Command::OpenMenu
            &&& keys::command_for(in_menu, pending_g, menu).0 == Command::CloseMenu
            &&& keys::command_for(in_search, pending_g, menu).0 == Command::CloseMenuAndSearch
            &&& keys::command_for(log, pending_g, find).0 == Command::OpenPrompt
            &&& keys::command_for(in_prompt, pending_g, find).0 == Command::LeavePrompt
            &&& keys::command_for(in_menu, pending_g, find).0 == Command::OpenSearch
            &&& keys::command_for(in_search, pending_g, find).0 == Command::CloseSearch
        }),
{
}

/// What the user is busy with follows from what is open and selected.
pub proof fn law_focus_is_what_is_open(s: StateView)
    ensures
        s.focus().prompt <==> s.prompt_mode == PromptMode::Filter,
        s.focus().menu <==> s.show_service_menu,
        s.focus().search <==> s.show_service_search,
        s.focus().selecting <==> s.visual_mode != VisualMode::Off,
{
}

/// In the menu and its search the same keys go up and down, and Control with `a` and
/// with `x` switches all services on and off; Enter flips one, with Control it chooses
/// it alone.
pub proof fn law_menu_keys(focus: Focus, pending_g: bool, mods: Mods)
    requires
        focus.menu,
    ensures
        ({
            let does = |code: KeyCode, m: Mods| keys::command_for(focus, pending_g, Key { code, mods: m }).0;
            &&& does(KeyCode::Down, mods) == Command::MenuDown
            &&& does(KeyCode::Up, mods) == Command::MenuUp
            &&& does(KeyCode::Char('a'), Mods::Control) == Command::AllServices(true)
            &&& does(KeyCode::Char('x'), Mods::Control) == Command::AllServices(false)
            &&& does(KeyCode::Enter, Mods::Plain) == Command::FlipService
            &&& does(KeyCode::Enter, Mods::Control) == Command::OnlyService
            &&& !focus.search ==> does(KeyCode::Char('j'), Mods::Plain) == Command::MenuDown && does(
                KeyCode::Char('k'),
                Mods::Plain,
            ) == Command::MenuUp && does(KeyCode::Char(' '), mods) == Command::FlipService
            &&& focus.search ==> does(KeyCode::Backspace, mods) == Command::SearchBack
        }),
{
}

/// In the prompt the keys for the ends, for going and for deleting do so whatever is
/// held down with them, and Enter applies what is typed.
pub proof fn law_prompt_keys(focus: Focus, pending_g: bool, mods: Mods)
    requires
        focus.prompt,
        !focus.menu,
    ensures
        ({
            let does = |code: KeyCode, m: Mods| keys::command_for(focus, pending_g, Key { code, mods: m }).0;
            &&& does(KeyCode::Enter, mods) == Command::ApplyFilter
            &&& does(KeyCode::Left, mods) == Command::InputLeft
            &&& does(KeyCode::Right, mods) == Command::InputRight
            &&& does(KeyCode::Home, mods) == Command::InputStart
            &&& does(KeyCode::Char('a'), Mods::Control) == Command::InputStart
            &&& does(KeyCode::End, mods) == Command::InputEnd
            &&& does(KeyCode::Char('e'), Mods::Control) == Command::InputEnd
            &&& does(KeyCode::Delete, mods) == Command::InputDelete
            &&& does(KeyCode::Backspace, mods) == Command::InputBack
            &&& does(KeyCode::Char('u'), Mods::Control) == Command::InputClear
            &&& does(KeyCode::Char('w'), Mods::Control) == Command::InputDropWord
        }),
{
}

/// In the log, the letters that select begin the selection they stand for, and each
/// motion by words, to an end or by half a screen has its key.
pub proof fn law_log_keys(focus: Focus, pending_g: bool, mods: Mods)
    requires
        !focus.prompt,
        !focus.menu,
    ensures
        ({
            let does = |c: char, m: Mods| keys::command_for(focus, pending_g, Key { code: KeyCode::Char(c), mods: m }).0;
            &&& does('v', Mods::Plain) == Command::Select(VisualMode::Character)
            &&& does('V', mods) == Command::Select(VisualMode::Line)
            &&& does('v', Mods::Control) == Command::Select(VisualMode::Block)
            &&& does('y', Mods::Plain) == Command::Copy
            &&& does('w', Mods::Plain) == Command::WordForward
            &&& does('b', Mods::Plain) == Command::WordBackward
            &&& does('e', Mods::Plain) == Command::WordEnd
            &&& does('0', Mods::Plain) == Command::LineStart
            &&& does('$', Mods::Plain) == Command::LineEnd
            &&& does('d', Mods::Control) == Command::HalfDown
            &&& does('u', Mods::Control) == Command::HalfUp
            &&& does('G', mods) == Command::Bottom
            &&& does('z', Mods::Plain) == Command::ToggleFold
            &&& does('q', Mods::Plain) == Command::Quit
        }),
{
}

/// The key that leaves closes what is on top: the prompt before the search, the search
/// before the menu, the menu before the selection.
pub proof fn law_escape_leaves_topmost(focus: Focus, pending_g: bool, mods: Mods)
    ensures
        ({
            let cmd = keys::command_for(focus, pending_g, Key { code: KeyCode::Esc, mods }).0;
            &&& focus.prompt <==> cmd == Command::LeavePrompt
            &&& !focus.prompt && focus.menu && focus.search <==> cmd == Command::CloseSearch
            &&& !focus.prompt && focus.menu && !focus.search <==> cmd == Command::CloseMenu
            &&& !focus.prompt && !focus.menu && focus.selecting <==> cmd == Command::LeaveSelection
            &&& cmd == keys::command_for(
                focus,
                pending_g,
                (Key { code: KeyCode::Char('c'), mods: Mods::Control }),
            ).0
        }),
{
}

// ---------------------------------------------------------------------------
// Lines and services coming in
// ---------------------------------------------------------------------------

/// A message is as grave as its gravest word, whatever else it says; a message of the
/// viewer's own is of a level of its own.
pub proof fn law_gravest_word_counts(msg: Seq<char>)
    ensures
        ({
            let upper = text::uppercase(msg);
            let says = |w: Seq<char>| text::contains(upper, w);
            let grave = says("ERROR"@) || says("FATAL"@) || says("CRITICAL"@) || says("🚨"@);
            let level = level::level_of(msg, false);
            &&& level == Some("ERROR"@) || level == Some("WARN"@) || level == Some("INFO"@) || level == Some(
                "DEBUG"@,
            ) || level is None
            &&& grave <==> level == Some("ERROR"@)
            &&& !grave && says("WARN"@) <==> level == Some("WARN"@)
            &&& !grave && !says("WARN"@) && says("INFO"@) <==> level == Some("INFO"@)
            &&& !grave && !says("WARN"@) && !says("INFO"@) && says("DEBUG"@) <==> level == Some("DEBUG"@)
            &&& level::level_of(msg, true) == Some("SYS"@)
        }),
{
    reveal_strlit("ERROR");
    reveal_strlit("WARN");
    reveal_strlit("INFO");
    reveal_strlit("DEBUG");
    assert("ERROR"@[0] == 'E' && "WARN"@[0] == 'W' && "INFO"@[0] == 'I' && "DEBUG"@[0] == 'D');
}

/// Noting how a container stands changes the first service with its id, there only the
/// standing, and nothing else.
pub proof fn law_status_touches_one(s: StateView, id: Seq<char>, is_running: bool, has_error: bool, k: int)
    requires
        0 <= k < s.service_options.len(),
        s.service_options[k].id == id,
        forall|i: int| 0 <= i < k ==> (#[trigger] s.service_options[i]).id != id,
    ensures
        ({
            let t = s.status_noted(id, is_running, has_error);
            let o = t.service_options[k];
            &&& t.service_options.len() == s.service_options.len()
            &&& o.is_running == is_running && o.has_error == has_error
            &&& o.id == id && o.name == s.service_options[k].name && o.enabled == s.service_options[k].enabled
            &&& forall|i: int|
                0 <= i < s.service_options.len() && i != k ==> #[trigger] t.service_options[i] == s.service_options[i]
            &&& t == (StateView { service_options: t.service_options, ..s })
        }),
{
    lemma_option_with_id(s.service_options, id, 0, k);
}

/// A container that is not known changes nothing.
pub proof fn law_unknown_status_is_ignored(s: StateView, id: Seq<char>, is_running: bool, has_error: bool)
    requires
        forall|i: int| 0 <= i < s.service_options.len() ==> (#[trigger] s.service_options[i]).id != id,
    ensures
        s.status_noted(id, is_running, has_error) == s,
{
    lemma_no_option_with_id(s.service_options, id, 0);
}

proof fn lemma_option_with_id(opts: Seq<ServiceView>, id: Seq<char>, i: int, k: int)
    requires
        0 <= i <= k < opts.len(),
        opts[k].id == id,
        forall|j: int| i <= j < k ==> (#[trigger] opts[j]).id != id,
    ensures
        ingest::option_with_id(opts, id, i) == Some(k),
    decreases k - i,
{
    if i < k {
        assert(opts[i].id != id);
        lemma_option_with_id(opts, id, i + 1, k);
    }
}

proof fn lemma_no_option_with_id(opts: Seq<ServiceView>, id: Seq<char>, i: int)
    requires
        0 <= i <= opts.len(),
        forall|j: int| i <= j < opts.len() ==> (#[trigger] opts[j]).id != id,
    ensures
        ingest::option_with_id(opts, id, i) is None,
    decreases opts.len() - i,
{
    if i < opts.len() {
        assert(opts[i].id != id);
        lemma_no_option_with_id(opts, id, i + 1);
    }
}

/// Containers become services behind those there are, all switched on, in order.
pub proof fn law_containers_become_services(s: StateView, c: Seq<crate::docker::http::ContainerView>)
    ensures
        ({
            let t = s.containers_added(c);
            let n = s.service_options.len() as int;
            &&& t.service_options.len() == n + c.len()
            &&& t.service_options.take(n) == s.service_options
            &&& forall|i: int|
                0 <= i < c.len() ==> {
                    let o = #[trigger] t.service_options[n + i];
                    &&& o.id == c[i].id
                    &&& o.name == c[i].name
                    &&& o.enabled
                    &&& o.is_running == c[i].is_running
                    &&& o.has_error == c[i].has_error
                }
        }),
{
    let t = s.containers_added(c);
    assert(t.service_options.take(s.service_options.len() as int) =~= s.service_options);
}

/// A message makes a line of its service, with its text without escape sequences, its
/// date, and the level that its words tell.
pub proof fn law_message_becomes_line(m: MsgView)
    ensures
        ({
            let l = ingest::item_view(m);
            &&& l.service == m.service_name
            &&& l.content == ansi::ansi_text(m.message)
            &&& l.timestamp == m.timestamp
            &&& l.is_system == m.is_system_event
            &&& m.is_system_event ==> l.level == Some("SYS"@)
            &&& !m.is_system_event ==> l.level == level::level_of(m.message, false)
        }),
{
}

proof fn lemma_same_text(a: Seq<char>, b: Seq<char>, i: int)
    requires
        text::lex_le_from(a, b, i),
        text::lex_le_from(b, a, i),
        0 <= i <= a.len(),
        0 <= i <= b.len(),
        forall|j: int| 0 <= j < i ==> #[trigger] a[j] == b[j],
    ensures
        a == b,
    decreases a.len() - i,
{
    if i < a.len() && i < b.len() {
        lemma_same_text(a, b, i + 1);
    } else {
        assert(a =~= b);
    }
}

/// Messages go by their dates, the earlier first, those without one before all others.
pub proof fn law_dates_in_order(a: int, b: int)
    requires
        0 <= a <= i64::MAX,
        0 <= b <= i64::MAX,
    ensures
        ({
            let (x, y) = (Moment::of(a).text(), Moment::of(b).text());
            &&& ingest::date_le(Some(x), Some(y)) <==> a <= b
            &&& ingest::date_le(None, Some(x))
            &&& !ingest::date_le(Some(x), None)
            &&& ingest::date_le(None, None)
        }),
{
    let (x, y) = (Moment::of(a).text(), Moment::of(b).text());
    crate::state::laws::law_text_order_total(x, y);
    if a < b {
        clock::law_later_reads_later(a, b);
    }
    if b < a {
        clock::law_later_reads_later(b, a);
        if text::lex_le(x, y) {
            lemma_same_text(x, y, 0);
        }
    }
    if a == b {
        crate::state::laws::law_text_order_total(x, x);
    }
}

proof fn lemma_of_date(a: Seq<MsgView>, m: MsgView)
    ensures
        ingest::of_date(a, m.timestamp).contains(m) <==> a.contains(m),
    decreases a.len(),
{
    reveal(Seq::filter);
    let f = ingest::of_date(a, m.timestamp);
    if a.len() > 0 {
        let b = a.drop_last();
        let g = ingest::of_date(b, m.timestamp);
        lemma_of_date(b, m);
        if b.contains(m) {
            let i = choose|i: int| 0 <= i < b.len() && b[i] == m;
            assert(a[i] == m);
        }
        if g.contains(m) {
            let i = choose|i: int| 0 <= i < g.len() && g[i] == m;
            assert(f[i] == m);
        }
        if a.last() == m {
            assert(f == g.push(m));
            assert(f[g.len() as int] == m);
            assert(a[a.len() - 1] == m);
        }
        if a.contains(m) && a.last() != m {
            let i = choose|i: int| 0 <= i < a.len() && a[i] == m;
            assert(b[i] == m);
        }
        if f.contains(m) && a.last() != m {
            let i = choose|i: int| 0 <= i < f.len() && f[i] == m;
            if i < g.len() {
                assert(g[i] == m);
            }
        }
    }
}

/// Lists that hold the same messages date by date hold the same messages.
pub proof fn law_sorting_keeps_messages(a: Seq<MsgView>, b: Seq<MsgView>, m: MsgView)
    requires
        ingest::same_by_date(a, b),
    ensures
        a.contains(m) <==> b.contains(m),
{
    lemma_of_date(a, m);
    lemma_of_date(b, m);
    assert(ingest::of_date(a, m.timestamp) == ingest::of_date(b, m.timestamp));
}

// ---------------------------------------------------------------------------
// What is refused
// ---------------------------------------------------------------------------

/// A command that is about the menu, the search or the places in the input is never
/// refused, and one that neither switches, edits nor filters changes nothing where it is.
pub proof fn law_refusals(s: StateView, cmd: Command, now: u64)
    ensures
        !cmd.moves() && !cmd.edits() && !cmd.recomputes() && !(cmd is Copy) ==> s.can_do(cmd, now),
        !cmd.edits() && !cmd.recomputes() ==> s.begun(cmd) == s,
        cmd is Copy && !s.copies() ==> s.can_do(cmd, now),
{
}

/// A line that comes in is kept, whether it can be shown and followed or not.
pub proof fn law_line_is_never_lost(s: StateView, item: crate::logitem::LogView, now: u64)
    ensures
        s.pushed_as_far(item, now).logs == s.inserted(item).logs,
{
    reveal(StateView::place_kept);
    reveal(StateView::v_adjusted);
}

/// The viewer begins empty: no lines, no filter, nothing selected, following what comes.
pub proof fn law_begins_empty(capacity: int)
    ensures
        ({
            let s = StateView::initial(capacity);
            &&& s.logs.len() == 0 && s.visible_count() == 0
            &&& s.max_capacity == capacity
            &&& s.filter_ast is None && s.active_filter_str is None && s.live_filter_ast is None
            &&& s.visual_mode == VisualMode::Off && s.visual_anchor is None
            &&& s.toggled_lines =~= Set::<usize>::empty()
            &&& s.sticky && s.line_fold
            &&& !s.typing()
            &&& !s.show_service_menu && s.service_options.len() == 0
            &&& s.at_bottom()
        }),
{
}

/// Text is typed exactly while the prompt or the search is open.
pub proof fn law_typing_is_told(s: StateView)
    ensures
        s.typing() <==> s.focus().prompt || s.show_service_search,
{
}

} // verus!
