//! What a key stands for.

use crate::state::view::{PromptMode, StateView, VisualMode};
use crate::state::AppState;
use vstd::prelude::*;

verus! {

/// A key.
#[derive(Debug, Clone, Copy, PartialEq, Eq, Structural)]
pub enum KeyCode {
    Char(char),
    Enter,
    Esc,
    Left,
    Right,
    Up,
    Down,
    Home,
    End,
    Delete,
    Backspace,
    Other,
}

/// What is held down with a key: nothing, Shift alone, Control alone, or anything else.
#[derive(Debug, Clone, Copy, PartialEq, Eq, Structural)]
pub enum Mods {
    Plain,
    Shift,
    Control,
    Other,
}

/// A key with what is held down.
#[derive(Debug, Clone, Copy, PartialEq, Eq, Structural)]
pub struct Key {
    pub code: KeyCode,
    pub mods: Mods,
}

/// What is to be done.
#[derive(Debug, Clone, Copy, PartialEq, Eq, Structural)]
pub enum Command {
    Nothing,
    Quit,
    LeavePrompt,
    CloseSearch,
    CloseMenu,
    CloseMenuAndSearch,
    LeaveSelection,
    MenuDown,
    MenuUp,
    FlipService,
    OnlyService,
    AllServices(bool),
    SearchBack,
    SearchInsert(char),
    OpenSearch,
    ApplyFilter,
    InputLeft,
    InputRight,
    InputStart,
    InputEnd,
    InputDelete,
    InputBack,
    InputClear,
    InputDropWord,
    InputInsert(char),
    ToggleFold,
    WordForward,
    WordBackward,
    WordEnd,
    Down(usize),
    Up(usize),
    Left(usize),
    Right(usize),
    OpenMenu,
    OpenPrompt,
    LineStart,
    LineEnd,
    HalfDown,
    HalfUp,
    Bottom,
    Top,
    Select(VisualMode),
    Copy,
}

/// What the user is busy with, from which it follows what a key means.
#[derive(Debug, Clone, Copy, PartialEq, Eq, Structural)]
pub struct Focus {
    pub prompt: bool,
    pub menu: bool,
    pub search: bool,
    pub selecting: bool,
}

impl StateView {
    pub open spec fn focus(self) -> Focus {
        Focus {
            prompt: self.prompt_mode == PromptMode::Filter,
            menu: self.show_service_menu,
            search: self.show_service_search,
            selecting: self.visual_mode != VisualMode::Off,
        }
    }
}

/// Whether the key leaves what the user is busy with.
pub open spec fn leaves(key: Key) -> bool {
    key.code == KeyCode::Esc || (key.code == KeyCode::Char('c') && key.mods == Mods::Control)
}

/// What a key that leaves does.
pub open spec fn leave_command(focus: Focus) -> Command {
    if focus.prompt {
        Command::LeavePrompt
    } else if focus.menu {
        if focus.search {
            Command::CloseSearch
        } else {
            Command::CloseMenu
        }
    } else if focus.selecting {
        Command::LeaveSelection
    } else {
        Command::Nothing
    }
}

/// What a key does while a service is searched.
pub open spec fn search_command(key: Key) -> Command {
    match (key.code, key.mods) {
        (KeyCode::Char('s'), Mods::Control) => Command::CloseMenuAndSearch,
        (KeyCode::Char('f'), Mods::Control) => Command::CloseSearch,
        (KeyCode::Char('j'), Mods::Control) | (KeyCode::Down, _) => Command::MenuDown,
        (KeyCode::Char('k'), Mods::Control) | (KeyCode::Up, _) => Command::MenuUp,
        (KeyCode::Enter, Mods::Plain) | (KeyCode::Char('l'), Mods::Control) => Command::FlipService,
        (KeyCode::Enter, Mods::Control) => Command::OnlyService,
        (KeyCode::Char('x'), Mods::Control) => Command::AllServices(false),
        (KeyCode::Char('a'), Mods::Control) => Command::AllServices(true),
        (KeyCode::Backspace, _) => Command::SearchBack,
        (KeyCode::Char(c), Mods::Plain) => Command::SearchInsert(c),
        _ => Command::Nothing,
    }
}

/// What a key does in the list of services.
pub open spec fn menu_command(key: Key) -> Command {
    match (key.code, key.mods) {
        (KeyCode::Char('s'), Mods::Control) => Command::CloseMenu,
        (KeyCode::Char('f'), Mods::Control) => Command::OpenSearch,
        (KeyCode::Char('j'), Mods::Plain) | (KeyCode::Down, _) => Command::MenuDown,
        (KeyCode::Char('k'), Mods::Plain) | (KeyCode::Up, _) => Command::MenuUp,
        (KeyCode::Char(' '), _) | (KeyCode::Char('l'), Mods::Plain) | (
            KeyCode::Enter,
            Mods::Plain,
        ) => Command::FlipService,
        (KeyCode::Enter, Mods::Control) => Command::OnlyService,
        (KeyCode::Char('x'), Mods::Control) => Command::AllServices(false),
        (KeyCode::Char('a'), Mods::Control) => Command::AllServices(true),
        _ => Command::Nothing,
    }
}

/// What a key does while a filter is typed.
pub open spec fn prompt_command(key: Key) -> Command {
    match (key.code, key.mods) {
        (KeyCode::Char('f'), Mods::Control) => Command::LeavePrompt,
        (KeyCode::Enter, _) => Command::ApplyFilter,
        (KeyCode::Left, _) => Command::InputLeft,
        (KeyCode::Right, _) => Command::InputRight,
        (KeyCode::Home, _) | (KeyCode::Char('a'), Mods::Control) => Command::InputStart,
        (KeyCode::End, _) | (KeyCode::Char('e'), Mods::Control) => Command::InputEnd,
        (KeyCode::Delete, _) => Command::InputDelete,
        (KeyCode::Backspace, _) => Command::InputBack,
        (KeyCode::Char('u'), Mods::Control) => Command::InputClear,
        (KeyCode::Char('w'), Mods::Control) => Command::InputDropWord,
        (KeyCode::Char(c), Mods::Plain) | (KeyCode::Char(c), Mods::Shift) => Command::InputInsert(c),
        _ => Command::Nothing,
    }
}

/// What a key does in the log; `pending_g` is whether a first `g` came before it.
pub open spec fn normal_command(key: Key, pending_g: bool) -> Command {
    match (key.code, key.mods) {
        (KeyCode::Char('q'), Mods::Plain) => Command::Quit,
        (KeyCode::Char('z'), Mods::Plain) | (KeyCode::Char('Z'), _) => Command::ToggleFold,
        (KeyCode::Char('w'), Mods::Plain) => Command::WordForward,
        (KeyCode::Char('b'), Mods::Plain) => Command::WordBackward,
        (KeyCode::Char('e'), Mods::Plain) => Command::WordEnd,
        (KeyCode::Char('j'), Mods::Control) => Command::Down(5),
        (KeyCode::Char('k'), Mods::Control) => Command::Up(5),
        (KeyCode::Char('h'), Mods::Control) => Command::Left(5),
        (KeyCode::Char('l'), Mods::Control) => Command::Right(5),
        (KeyCode::Char('s'), Mods::Control) => Command::OpenMenu,
        (KeyCode::Char('f'), Mods::Control) => Command::OpenPrompt,
        (KeyCode::Char('j'), Mods::Plain) | (KeyCode::Down, Mods::Plain) => Command::Down(1),
        (KeyCode::Char('k'), Mods::Plain) | (KeyCode::Up, Mods::Plain) => Command::Up(1),
        (KeyCode::Char('h'), Mods::Plain) | (KeyCode::Left, Mods::Plain) => Command::Left(1),
        (KeyCode::Char('l'), Mods::Plain) | (KeyCode::Right, Mods::Plain) => Command::Right(1),
        (KeyCode::Char('0'), Mods::Plain) => Command::LineStart,
        (KeyCode::Char('$'), Mods::Plain) => Command::LineEnd,
        (KeyCode::Char('d'), Mods::Control) => Command::HalfDown,
        (KeyCode::Char('u'), Mods::Control) => Command::HalfUp,
        (KeyCode::Char('G'), _) => Command::Bottom,
        (KeyCode::Char('g'), Mods::Plain) => if pending_g {
            Command::Top
        } else {
            Command::Nothing
        },
        (KeyCode::Char('v'), Mods::Plain) => Command::Select(VisualMode::Character),
        (KeyCode::Char('V'), _) | (KeyCode::Char('v'), Mods::Shift) => Command::Select(VisualMode::Line),
        (KeyCode::Char('v'), Mods::Control) => Command::Select(VisualMode::Block),
        (KeyCode::Char('y'), Mods::Plain) => Command::Copy,
        _ => Command::Nothing,
    }
}

/// What a key does, and whether a second `g` is waited for behind it.
pub open spec fn command_for(focus: Focus, pending_g: bool, key: Key) -> (Command, bool) {
    if leaves(key) {
        (leave_command(focus), false)
    } else if focus.menu {
        (
            if focus.search {
                search_command(key)
            } else {
                menu_command(key)
            },
            pending_g,
        )
    } else if focus.prompt {
        (prompt_command(key), pending_g)
    } else {
        (
            normal_command(key, pending_g),
            key.code == KeyCode::Char('g') && key.mods == Mods::Plain && !pending_g,
        )
    }
}

fn decide_search(key: Key) -> (r: Command)
    ensures
        r == search_command(key),
{
    match (key.code, key.mods) {
        (KeyCode::Char('s'), Mods::Control) => Command::CloseMenuAndSearch,
        (KeyCode::Char('f'), Mods::Control) => Command::CloseSearch,
        (KeyCode::Char('j'), Mods::Control) | (KeyCode::Down, _) => Command::MenuDown,
        (KeyCode::Char('k'), Mods::Control) | (KeyCode::Up, _) => Command::MenuUp,
        (KeyCode::Enter, Mods::Plain) | (KeyCode::Char('l'), Mods::Control) => Command::FlipService,
        (KeyCode::Enter, Mods::Control) => Command::OnlyService,
        (KeyCode::Char('x'), Mods::Control) => Command::AllServices(false),
        (KeyCode::Char('a'), Mods::Control) => Command::AllServices(true),
        (KeyCode::Backspace, _) => Command::SearchBack,
        (KeyCode::Char(c), Mods::Plain) => Command::SearchInsert(c),
        _ => Command::Nothing,
    }
}

fn decide_menu(key: Key) -> (r: Command)
    ensures
        r == menu_command(key),
{
    match (key.code, key.mods) {
        (KeyCode::Char('s'), Mods::Control) => Command::CloseMenu,
        (KeyCode::Char('f'), Mods::Control) => Command::OpenSearch,
        (KeyCode::Char('j'), Mods::Plain) | (KeyCode::Down, _) => Command::MenuDown,
        (KeyCode::Char('k'), Mods::Plain) | (KeyCode::Up, _) => Command::MenuUp,
        (KeyCode::Char(' '), _) | (KeyCode::Char('l'), Mods::Plain) | (
            KeyCode::Enter,
            Mods::Plain,
        ) => Command::FlipService,
        (KeyCode::Enter, Mods::Control) => Command::OnlyService,
        (KeyCode::Char('x'), Mods::Control) => Command::AllServices(false),
        (KeyCode::Char('a'), Mods::Control) => Command::AllServices(true),
        _ => Command::Nothing,
    }
}

fn decide_prompt(key: Key) -> (r: Command)
    ensures
        r == prompt_command(key),
{
    match (key.code, key.mods) {
        (KeyCode::Char('f'), Mods::Control) => Command::LeavePrompt,
        (KeyCode::Enter, _) => Command::ApplyFilter,
        (KeyCode::Left, _) => Command::InputLeft,
        (KeyCode::Right, _) => Command::InputRight,
        (KeyCode::Home, _) | (KeyCode::Char('a'), Mods::Control) => Command::InputStart,
        (KeyCode::End, _) | (KeyCode::Char('e'), Mods::Control) => Command::InputEnd,
        (KeyCode::Delete, _) => Command::InputDelete,
        (KeyCode::Backspace, _) => Command::InputBack,
        (KeyCode::Char('u'), Mods::Control) => Command::InputClear,
        (KeyCode::Char('w'), Mods::Control) => Command::InputDropWord,
        (KeyCode::Char(c), Mods::Plain) | (KeyCode::Char(c), Mods::Shift) => Command::InputInsert(c),
        _ => Command::Nothing,
    }
}

fn decide_normal(key: Key, pending_g: bool) -> (r: Command)
    ensures
        r == normal_command(key, pending_g),
{
    match (key.code, key.mods) {
        (KeyCode::Char('q'), Mods::Plain) => Command::Quit,
        (KeyCode::Char('z'), Mods::Plain) | (KeyCode::Char('Z'), _) => Command::ToggleFold,
        (KeyCode::Char('w'), Mods::Plain) => Command::WordForward,
        (KeyCode::Char('b'), Mods::Plain) => Command::WordBackward,
        (KeyCode::Char('e'), Mods::Plain) => Command::WordEnd,
        (KeyCode::Char('j'), Mods::Control) => Command::Down(5),
        (KeyCode::Char('k'), Mods::Control) => Command::Up(5),
        (KeyCode::Char('h'), Mods::Control) => Command::Left(5),
        (KeyCode::Char('l'), Mods::Control) => Command::Right(5),
        (KeyCode::Char('s'), Mods::Control) => Command::OpenMenu,
        (KeyCode::Char('f'), Mods::Control) => Command::OpenPrompt,
        (KeyCode::Char('j'), Mods::Plain) | (KeyCode::Down, Mods::Plain) => Command::Down(1),
        (KeyCode::Char('k'), Mods::Plain) | (KeyCode::Up, Mods::Plain) => Command::Up(1),
        (KeyCode::Char('h'), Mods::Plain) | (KeyCode::Left, Mods::Plain) => Command::Left(1),
        (KeyCode::Char('l'), Mods::Plain) | (KeyCode::Right, Mods::Plain) => Command::Right(1),
        (KeyCode::Char('0'), Mods::Plain) => Command::LineStart,
        (KeyCode::Char('$'), Mods::Plain) => Command::LineEnd,
        (KeyCode::Char('d'), Mods::Control) => Command::HalfDown,
        (KeyCode::Char('u'), Mods::Control) => Command::HalfUp,
        (KeyCode::Char('G'), _) => Command::Bottom,
        (KeyCode::Char('g'), Mods::Plain) => if pending_g {
            Command::Top
        } else {
            Command::Nothing
        },
        (KeyCode::Char('v'), Mods::Plain) => Command::Select(VisualMode::Character),
        (KeyCode::Char('V'), _) | (KeyCode::Char('v'), Mods::Shift) => Command::Select(VisualMode::Line),
        (KeyCode::Char('v'), Mods::Control) => Command::Select(VisualMode::Block),
        (KeyCode::Char('y'), Mods::Plain) => Command::Copy,
        _ => Command::Nothing,
    }
}

/// Finds what a key does, and whether a second `g` is waited for behind it.
pub fn decide(state: &AppState, pending_g: bool, key: Key) -> (r: (Command, bool))
    ensures
        r == command_for(state@.focus(), pending_g, key),
{
    let prompt: bool = state.prompt_mode == PromptMode::Filter;
    if key.code == KeyCode::Esc || (key.code == KeyCode::Char('c') && key.mods == Mods::Control) {
        let c = if prompt {
            Command::LeavePrompt
        } else if state.show_service_menu {
            if state.show_service_search {
                Command::CloseSearch
            } else {
                Command::CloseMenu
            }
        } else if state.visual_mode != VisualMode::Off {
            Command::LeaveSelection
        } else {
            Command::Nothing
        };
        (c, false)
    } else if state.show_service_menu {
        if state.show_service_search {
            (decide_search(key), pending_g)
        } else {
            (decide_menu(key), pending_g)
        }
    } else if prompt {
        (decide_prompt(key), pending_g)
    } else {
        (
            decide_normal(key, pending_g),
            key.code == KeyCode::Char('g') && key.mods == Mods::Plain && !pending_g,
        )
    }
}

impl StateView {
    /// Whether text is being typed.
    pub open spec fn typing(self) -> bool {
        self.prompt_mode == PromptMode::Filter || self.show_service_search
    }
}

impl AppState {
    /// Whether text is being typed, so that the cursor is a bar and not a block.
    pub fn is_typing(&self) -> (r: bool)
        ensures
            r == self@.typing(),
    {
        self.prompt_mode == PromptMode::Filter || self.show_service_search
    }
}

/// The key that leaves always leaves something, as long as there is something to leave.
pub proof fn law_escape_leaves(focus: Focus, pending_g: bool, mods: Mods)
    ensures
        command_for(focus, pending_g, Key { code: KeyCode::Esc, mods }).0 == Command::Nothing <==> !focus.prompt
            && !focus.menu && !focus.selecting,
        !command_for(focus, pending_g, Key { code: KeyCode::Esc, mods }).1,
{
}

/// The viewer is left only from the log itself.
pub proof fn law_quit_only_from_log(focus: Focus, pending_g: bool, key: Key)
    requires
        command_for(focus, pending_g, key).0 == Command::Quit,
    ensures
        !focus.prompt,
        !focus.menu,
        key == (Key { code: KeyCode::Char('q'), mods: Mods::Plain }),
{
}

} // verus!
