//! The commands an editor understands, and which key presses give them.

use crate::ui::Size;
use vstd::prelude::*;

verus! {

/// A key, as the editor tells keys apart.
#[derive(Clone, Copy, Debug, PartialEq, Eq, Structural)]
pub enum Key {
    Char(char),
    Tab,
    Enter,
    Delete,
    Backspace,
    PageUp,
    PageDown,
    Home,
    End,
    Left,
    Right,
    Up,
    Down,
    Esc,
    Other,
}

/// The modifier keys held with a key.
#[derive(Clone, Copy, Debug, PartialEq, Eq, Structural)]
pub enum KeyModifiers {
    NoModifier,
    Shift,
    Control,
    Other,
}

/// Moving the caret.
#[derive(Clone, Copy, Debug, PartialEq, Eq, Structural)]
pub enum Move {
    PageUp,
    PageDown,
    StartOfLine,
    EndOfLine,
    Left,
    Right,
    Up,
    Down,
}

/// Changing the text.
#[derive(Clone, Copy, Debug, PartialEq, Eq, Structural)]
pub enum Edit {
    Insert(char),
    InsertNewline,
    Delete,
    DeleteBackward,
}

/// Acting on the editor as a whole.
#[derive(Clone, Copy, Debug, PartialEq, Eq, Structural)]
pub enum System {
    Resize(Size),
    Save,
    Quit,
    Dismiss,
    Search,
}

/// Any command.
#[derive(Clone, Copy, Debug, PartialEq, Eq, Structural)]
pub enum Command {
    Move(Move),
    Edit(Edit),
    System(System),
}

/// The edit a key press asks for, if any.
pub open spec fn edit_of(key: Key, mods: KeyModifiers) -> Option<Edit> {
    match (key, mods) {
        (Key::Char(c), KeyModifiers::NoModifier) => Some(Edit::Insert(c)),
        (Key::Char(c), KeyModifiers::Shift) => Some(Edit::Insert(c)),
        (Key::Tab, KeyModifiers::NoModifier) => Some(Edit::Insert('\t')),
        (Key::Enter, KeyModifiers::NoModifier) => Some(Edit::InsertNewline),
        (Key::Delete, KeyModifiers::NoModifier) => Some(Edit::Delete),
        (Key::Backspace, KeyModifiers::NoModifier) => Some(Edit::DeleteBackward),
        _ => None,
    }
}

/// The caret move a key press asks for, if any.
pub open spec fn move_of(key: Key, mods: KeyModifiers) -> Option<Move> {
    if mods != KeyModifiers::NoModifier {
        None
    } else {
        match key {
            Key::PageUp => Some(Move::PageUp),
            Key::PageDown => Some(Move::PageDown),
            Key::Home => Some(Move::StartOfLine),
            Key::End => Some(Move::EndOfLine),
            Key::Left => Some(Move::Left),
            Key::Right => Some(Move::Right),
            Key::Up => Some(Move::Up),
            Key::Down => Some(Move::Down),
            _ => None,
        }
    }
}

/// The editor action a key press asks for, if any.
pub open spec fn system_of(key: Key, mods: KeyModifiers) -> Option<System> {
    match (key, mods) {
        (Key::Char('q'), KeyModifiers::Control) => Some(System::Quit),
        (Key::Char('s'), KeyModifiers::Control) => Some(System::Save),
        (Key::Char('f'), KeyModifiers::Control) => Some(System::Search),
        (Key::Esc, KeyModifiers::NoModifier) => Some(System::Dismiss),
        _ => None,
    }
}

impl Edit {
    /// The edit a key press asks for, if any.
    pub fn from_key(key: Key, mods: KeyModifiers) -> (r: Option<Edit>)
        ensures
            r == edit_of(key, mods),
    {
        match (key, mods) {
            (Key::Char(c), KeyModifiers::NoModifier) => Some(Edit::Insert(c)),
            (Key::Char(c), KeyModifiers::Shift) => Some(Edit::Insert(c)),
            (Key::Tab, KeyModifiers::NoModifier) => Some(Edit::Insert('\t')),
            (Key::Enter, KeyModifiers::NoModifier) => Some(Edit::InsertNewline),
            (Key::Delete, KeyModifiers::NoModifier) => Some(Edit::Delete),
            (Key::Backspace, KeyModifiers::NoModifier) => Some(Edit::DeleteBackward),
            _ => None,
        }
    }
}

impl Move {
    /// The caret move a key press asks for, if any.
    pub fn from_key(key: Key, mods: KeyModifiers) -> (r: Option<Move>)
        ensures
            r == move_of(key, mods),
    {
        match mods {
            KeyModifiers::NoModifier => {},
            _ => return None,
        }
        match key {
            Key::PageUp => Some(Move::PageUp),
            Key::PageDown => Some(Move::PageDown),
            Key::Home => Some(Move::StartOfLine),
            Key::End => Some(Move::EndOfLine),
            Key::Left => Some(Move::Left),
            Key::Right => Some(Move::Right),
            Key::Up => Some(Move::Up),
            Key::Down => Some(Move::Down),
            _ => None,
        }
    }
}

impl System {
    /// The editor action a key press asks for, if any.
    pub fn from_key(key: Key, mods: KeyModifiers) -> (r: Option<System>)
        ensures
            r == system_of(key, mods),
    {
        match (key, mods) {
            (Key::Char(c), KeyModifiers::Control) => if c == 'q' {
                Some(System::Quit)
            } else if c == 's' {
                Some(System::Save)
            } else if c == 'f' {
                Some(System::Search)
            } else {
                None
            },
            (Key::Esc, KeyModifiers::NoModifier) => Some(System::Dismiss),
            _ => None,
        }
    }
}

impl Command {
    /// The command a key press asks for: an edit if it is one, else a move,
    /// else an editor action.
    pub fn from_key(key: Key, mods: KeyModifiers) -> (r: Option<Command>)
        ensures
            r == (if edit_of(key, mods) is Some {
                Some(Command::Edit(edit_of(key, mods)->0))
            } else if move_of(key, mods) is Some {
                Some(Command::Move(move_of(key, mods)->0))
            } else if system_of(key, mods) is Some {
                Some(Command::System(system_of(key, mods)->0))
            } else {
                None
            }),
    {
        if let Some(e) = Edit::from_key(key, mods) {
            return Some(Command::Edit(e));
        }
        if let Some(m) = Move::from_key(key, mods) {
            return Some(Command::Move(m));
        }
        if let Some(s) = System::from_key(key, mods) {
            return Some(Command::System(s));
        }
        None
    }

    /// The command for the terminal taking a new size.
    pub fn from_resize(width: u16, height: u16) -> (r: Command)
        ensures
            r == Command::System(
                System::Resize(Size { height: height as usize, width: width as usize }),
            ),
    {
        Command::System(System::Resize(Size { height: height as usize, width: width as usize }))
    }
}

} // verus!
