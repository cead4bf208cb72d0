//! The keys of the keyboard and the actions they ask for.

use vstd::prelude::*;
use crate::app::Action;

verus! {

/// A key that was pressed.
#[derive(Debug, Clone, Copy, PartialEq, Eq, Structural)]
pub enum Key {
    Char(char),
    Up,
    Down,
    Left,
    Right,
    PageUp,
    PageDown,
    Other,
}

/// Number of lines that a page key scrolls by, and of columns that a
/// capital letter scrolls by.
pub const PAGE_STEP: usize = 10;

/// The action that a key asks for, if it asks for one. `width` is the width
/// of the terminal, which the switch of views goes by.
pub open spec fn key_action(key: Key, width: u16) -> Option<Action> {
    match key {
        Key::Char(c) => if c == 'q' {
            Some(Action::Quit)
        } else if c == 'j' {
            Some(Action::NextFile)
        } else if c == 'k' {
            Some(Action::PrevFile)
        } else if c == 'd' {
            Some(Action::ScrollDown { amount: PAGE_STEP })
        } else if c == 'u' {
            Some(Action::ScrollUp { amount: PAGE_STEP })
        } else if c == 's' {
            Some(Action::ToggleSplit { width })
        } else if c == '?' {
            Some(Action::Help)
        } else if c == 'g' {
            Some(Action::Top)
        } else if c == 'G' {
            Some(Action::Bottom)
        } else if c == 'h' {
            Some(Action::ScrollLeft { amount: 1 })
        } else if c == 'l' {
            Some(Action::ScrollRight { amount: 1 })
        } else if c == 'H' {
            Some(Action::ScrollLeft { amount: PAGE_STEP })
        } else if c == 'L' {
            Some(Action::ScrollRight { amount: PAGE_STEP })
        } else {
            None
        },
        Key::Down => Some(Action::NextFile),
        Key::Up => Some(Action::PrevFile),
        Key::PageDown => Some(Action::ScrollDown { amount: PAGE_STEP }),
        Key::PageUp => Some(Action::ScrollUp { amount: PAGE_STEP }),
        Key::Left => Some(Action::ScrollLeft { amount: 1 }),
        Key::Right => Some(Action::ScrollRight { amount: 1 }),
        Key::Other => None,
    }
}

/// Does the action of the key depend on the width of the terminal?
pub fn needs_width(key: Key) -> (needed: bool)
    ensures
        needed == (key == Key::Char('s')),
        !needed ==> forall|a: u16, b: u16| key_action(key, a) == key_action(key, b),
{
    match key {
        Key::Char(c) => c == 's',
        _ => false,
    }
}

/// The action that a key asks for.
pub fn action_for_key(key: Key, width: u16) -> (action: Option<Action>)
    ensures
        action == key_action(key, width),
{
    match key {
        Key::Char(c) => if c == 'q' {
            Some(Action::Quit)
        } else if c == 'j' {
            Some(Action::NextFile)
        } else if c == 'k' {
            Some(Action::PrevFile)
        } else if c == 'd' {
            Some(Action::ScrollDown { amount: PAGE_STEP })
        } else if c == 'u' {
            Some(Action::ScrollUp { amount: PAGE_STEP })
        } else if c == 's' {
            Some(Action::ToggleSplit { width })
        } else if c == '?' {
            Some(Action::Help)
        } else if c == 'g' {
            Some(Action::Top)
        } else if c == 'G' {
            Some(Action::Bottom)
        } else if c == 'h' {
            Some(Action::ScrollLeft { amount: 1 })
        } else if c == 'l' {
            Some(Action::ScrollRight { amount: 1 })
        } else if c == 'H' {
            Some(Action::ScrollLeft { amount: PAGE_STEP })
        } else if c == 'L' {
            Some(Action::ScrollRight { amount: PAGE_STEP })
        } else {
            None
        },
        Key::Down => Some(Action::NextFile),
        Key::Up => Some(Action::PrevFile),
        Key::PageDown => Some(Action::ScrollDown { amount: PAGE_STEP }),
        Key::PageUp => Some(Action::ScrollUp { amount: PAGE_STEP }),
        Key::Left => Some(Action::ScrollLeft { amount: 1 }),
        Key::Right => Some(Action::ScrollRight { amount: 1 }),
        Key::Other => None,
    }
}

} // verus!
