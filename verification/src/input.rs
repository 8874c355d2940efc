//! Key and mouse bindings: terminal events to editor actions.

use vstd::prelude::*;

verus! {

#[derive(Clone, Copy, Debug, PartialEq, Eq, Structural)]
pub enum Direction {
    Left,
    Right,
    Up,
    Down,
}

#[derive(Clone, Copy, Debug, PartialEq, Eq, Structural)]
pub enum MoveKind {
    Char(Direction),
    Word(Direction),
    LineStart,
    LineEnd,
    PageUp,
    PageDown,
}

/// Which key was pressed.
#[derive(Clone, Copy, Debug, PartialEq, Eq, Structural)]
pub enum KeyCode {
    Char(char),
    Enter,
    Esc,
    Tab,
    Backspace,
    Delete,
    Left,
    Right,
    Up,
    Down,
    Home,
    End,
    PageUp,
    PageDown,
    /// Any other key.
    Other,
}

#[derive(Clone, Copy, Debug, PartialEq, Eq, Structural)]
pub enum KeyEventKind {
    Press,
    Repeat,
    Release,
}

/// A key event with the modifiers held.
#[derive(Clone, Copy, Debug, PartialEq, Eq, Structural)]
pub struct KeyEvent {
    pub code: KeyCode,
    pub kind: KeyEventKind,
    pub ctrl: bool,
    pub shift: bool,
    pub alt: bool,
}

#[derive(Clone, Copy, Debug, PartialEq, Eq, Structural)]
pub enum MouseButton {
    Left,
    Right,
    Middle,
}

#[derive(Clone, Copy, Debug, PartialEq, Eq, Structural)]
pub enum MouseEventKind {
    Down(MouseButton),
    Up(MouseButton),
    Drag(MouseButton),
    Moved,
    ScrollDown,
    ScrollUp,
    ScrollLeft,
    ScrollRight,
}

/// A mouse event at a terminal cell.
#[derive(Clone, Copy, Debug, PartialEq, Eq, Structural)]
pub struct MouseEvent {
    pub kind: MouseEventKind,
    pub column: u16,
    pub row: u16,
}

/// A terminal event.
#[derive(Clone, Copy, Debug)]
pub enum Event {
    Key(KeyEvent),
    Mouse(MouseEvent),
    Resize(u16, u16),
    /// Focus changes, pastes and other events.
    Other,
}

#[derive(Clone, Copy, Debug)]
pub enum Action {
    Save,
    Quit,
    Find,
    FindNext,
    FindPrevious,
    Picker,
    ShowCodeActions,
    Undo,
    Redo,
    Cut,
    Copy,
    Paste,
    SelectAll,
    Move { kind: MoveKind, selecting: bool },
    Insert(char),
    Tab,
    Backspace,
    Delete,
    Enter,
    Create,
    Escape,
    Mouse(MouseEvent),
    Nothing,
}

/// The action bound to a key chord with Ctrl held, if any.
pub open spec fn ctrl_action(key: KeyEvent) -> Option<Action> {
    match key.code {
        KeyCode::Char(c) => if c == 's' || c == 'S' {
            Some(Action::Save)
        } else if c == 'q' || c == 'Q' {
            Some(Action::Quit)
        } else if c == 'f' || c == 'F' {
            Some(Action::Find)
        } else if (c == 'g' && key.shift) || c == 'G' {
            Some(Action::FindPrevious)
        } else if c == 'g' {
            Some(Action::FindNext)
        } else if c == 'p' || c == 'P' {
            Some(Action::Picker)
        } else if c == '.' {
            Some(Action::ShowCodeActions)
        } else if (c == 'z' && key.shift) || c == 'Z' {
            Some(Action::Redo)
        } else if c == 'z' {
            Some(Action::Undo)
        } else if c == 'x' || c == 'X' {
            Some(Action::Cut)
        } else if c == 'c' || c == 'C' {
            Some(Action::Copy)
        } else if c == 'v' || c == 'V' {
            Some(Action::Paste)
        } else if c == 'a' || c == 'A' {
            Some(Action::SelectAll)
        } else {
            None
        },
        KeyCode::Enter => Some(Action::Create),
        KeyCode::Left => Some(Action::Move { kind: MoveKind::Word(Direction::Left), selecting: key.shift }),
        KeyCode::Right => Some(
            Action::Move { kind: MoveKind::Word(Direction::Right), selecting: key.shift },
        ),
        _ => None,
    }
}

/// The action bound to a key without the Ctrl chords.
pub open spec fn plain_action(key: KeyEvent) -> Action {
    let mv = |k: MoveKind| Action::Move { kind: k, selecting: key.shift };
    match key.code {
        KeyCode::Esc => Action::Escape,
        KeyCode::Enter => if key.alt {
            Action::Create
        } else {
            Action::Enter
        },
        KeyCode::Tab => Action::Tab,
        KeyCode::Backspace => Action::Backspace,
        KeyCode::Delete => Action::Delete,
        KeyCode::Left => mv(MoveKind::Char(Direction::Left)),
        KeyCode::Right => mv(MoveKind::Char(Direction::Right)),
        KeyCode::Up => mv(MoveKind::Char(Direction::Up)),
        KeyCode::Down => mv(MoveKind::Char(Direction::Down)),
        KeyCode::Home => mv(MoveKind::LineStart),
        KeyCode::End => mv(MoveKind::LineEnd),
        KeyCode::PageUp => mv(MoveKind::PageUp),
        KeyCode::PageDown => mv(MoveKind::PageDown),
        KeyCode::Char(c) => if !key.ctrl && !key.alt {
            Action::Insert(c)
        } else {
            Action::Nothing
        },
        KeyCode::Other => Action::Nothing,
    }
}

/// The action bound to a key event: releases do nothing; Ctrl chords come
/// first, then the plain bindings.
pub open spec fn key_action(key: KeyEvent) -> Action {
    if key.kind == KeyEventKind::Release {
        Action::Nothing
    } else if key.ctrl && ctrl_action(key) is Some {
        ctrl_action(key)->0
    } else {
        plain_action(key)
    }
}

/// The action for a mouse event: presses, releases, drags and vertical
/// scrolling are passed on, other mouse events do nothing.
pub open spec fn mouse_action(mouse: MouseEvent) -> Action {
    match mouse.kind {
        MouseEventKind::Down(_) | MouseEventKind::Drag(_) | MouseEventKind::Up(_)
        | MouseEventKind::ScrollDown | MouseEventKind::ScrollUp => Action::Mouse(mouse),
        _ => Action::Nothing,
    }
}

pub open spec fn event_action(event: Event) -> Action {
    match event {
        Event::Key(k) => key_action(k),
        Event::Mouse(m) => mouse_action(m),
        _ => Action::Nothing,
    }
}

/// The editor action for a terminal event.
pub fn event_to_action(event: Event) -> (a: Action)
    ensures
        a == event_action(event),
{
    match event {
        Event::Key(key) => key_to_action(key),
        Event::Mouse(mouse) => mouse_to_action(mouse),
        Event::Resize(_, _) => Action::Nothing,
        Event::Other => Action::Nothing,
    }
}

fn ctrl_key_action(key: KeyEvent) -> (a: Option<Action>)
    ensures
        a == ctrl_action(key),
{
    match key.code {
        KeyCode::Char(c) => {
            if c == 's' || c == 'S' {
                Some(Action::Save)
            } else if c == 'q' || c == 'Q' {
                Some(Action::Quit)
            } else if c == 'f' || c == 'F' {
                Some(Action::Find)
            } else if (c == 'g' && key.shift) || c == 'G' {
                Some(Action::FindPrevious)
            } else if c == 'g' {
                Some(Action::FindNext)
            } else if c == 'p' || c == 'P' {
                Some(Action::Picker)
            } else if c == '.' {
                Some(Action::ShowCodeActions)
            } else if (c == 'z' && key.shift) || c == 'Z' {
                Some(Action::Redo)
            } else if c == 'z' {
                Some(Action::Undo)
            } else if c == 'x' || c == 'X' {
                Some(Action::Cut)
            } else if c == 'c' || c == 'C' {
                Some(Action::Copy)
            } else if c == 'v' || c == 'V' {
                Some(Action::Paste)
            } else if c == 'a' || c == 'A' {
                Some(Action::SelectAll)
            } else {
                None
            }
        },
        KeyCode::Enter => Some(Action::Create),
        KeyCode::Left => Some(
            Action::Move { kind: MoveKind::Word(Direction::Left), selecting: key.shift },
        ),
        KeyCode::Right => Some(
            Action::Move { kind: MoveKind::Word(Direction::Right), selecting: key.shift },
        ),
        _ => None,
    }
}

fn key_to_action(key: KeyEvent) -> (a: Action)
    ensures
        a == key_action(key),
{
    match key.kind {
        KeyEventKind::Release => {
            return Action::Nothing;
        },
        _ => {},
    }
    if key.ctrl {
        if let Some(a) = ctrl_key_action(key) {
            return a;
        }
    }
    let shift = key.shift;
    match key.code {
        KeyCode::Esc => Action::Escape,
        KeyCode::Enter => if key.alt {
            Action::Create
        } else {
            Action::Enter
        },
        KeyCode::Tab => Action::Tab,
        KeyCode::Backspace => Action::Backspace,
        KeyCode::Delete => Action::Delete,
        KeyCode::Left => Action::Move { kind: MoveKind::Char(Direction::Left), selecting: shift },
        KeyCode::Right => Action::Move { kind: MoveKind::Char(Direction::Right), selecting: shift },
        KeyCode::Up => Action::Move { kind: MoveKind::Char(Direction::Up), selecting: shift },
        KeyCode::Down => Action::Move { kind: MoveKind::Char(Direction::Down), selecting: shift },
        KeyCode::Home => Action::Move { kind: MoveKind::LineStart, selecting: shift },
        KeyCode::End => Action::Move { kind: MoveKind::LineEnd, selecting: shift },
        KeyCode::PageUp => Action::Move { kind: MoveKind::PageUp, selecting: shift },
        KeyCode::PageDown => Action::Move { kind: MoveKind::PageDown, selecting: shift },
        KeyCode::Char(c) => if !key.ctrl && !key.alt {
            Action::Insert(c)
        } else {
            Action::Nothing
        },
        KeyCode::Other => Action::Nothing,
    }
}

fn mouse_to_action(mouse: MouseEvent) -> (a: Action)
    ensures
        a == mouse_action(mouse),
{
    match mouse.kind {
        MouseEventKind::Down(_) | MouseEventKind::Drag(_) | MouseEventKind::Up(_)
        | MouseEventKind::ScrollDown | MouseEventKind::ScrollUp => Action::Mouse(mouse),
        _ => Action::Nothing,
    }
}

} // verus!
