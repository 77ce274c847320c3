//! Key event handling.
use vstd::prelude::*;

verus! {

/// A keyboard event. Includes most keys on most keyboards, but not all keys.
#[derive(Debug, Clone, Copy, PartialEq, Eq, PartialOrd, Ord)]
pub enum Event {
    Right,
    Left,
    Up,
    Down,
    Char(char),
    Enter,
    Esc,
    Backspace,
    Tab,
}

/// A direction.
#[derive(Debug, Clone, Copy, PartialEq, Eq, PartialOrd, Ord)]
pub enum Direction {
    Up,
    Left,
    Down,
    Right,
}

/// `crossterm::event::KeyCode`: the key of a key event. Nothing is known of
/// a value of it.
#[verifier::external_type_specification]
#[verifier::external_body]
pub struct ExKeyCode(crossterm::event::KeyCode);

/// The direction that an event stands for, with the four given characters as
/// direction keys beside the arrow keys. Where a character is given for
/// several directions, the first of up, left, down, right counts.
pub open spec fn direction_of(event: Event, up: char, left: char, down: char, right: char) -> Option<
    Direction,
> {
    match event {
        Event::Up => Some(Direction::Up),
        Event::Left => Some(Direction::Left),
        Event::Down => Some(Direction::Down),
        Event::Right => Some(Direction::Right),
        Event::Char(c) => if c == up {
            Some(Direction::Up)
        } else if c == left {
            Some(Direction::Left)
        } else if c == down {
            Some(Direction::Down)
        } else if c == right {
            Some(Direction::Right)
        } else {
            None
        },
        _ => None,
    }
}

impl Event {
    /// Returns the direction associated with this event, if any.
    ///
    /// Includes arrow keys, and a configurable keyset for up, left, down, right.
    pub fn direction(&self, up: char, left: char, down: char, right: char) -> (r: Option<Direction>)
        ensures
            r == direction_of(*self, up, left, down, right),
    {
        match self {
            Event::Up => Some(Direction::Up),
            Event::Left => Some(Direction::Left),
            Event::Down => Some(Direction::Down),
            Event::Right => Some(Direction::Right),
            Event::Char(c) => {
                if *c == up {
                    Some(Direction::Up)
                } else if *c == left {
                    Some(Direction::Left)
                } else if *c == down {
                    Some(Direction::Down)
                } else if *c == right {
                    Some(Direction::Right)
                } else {
                    None
                }
            },
            _ => None,
        }
    }

    /// Returns the direction associated with this event, if any.
    ///
    /// Maps arrow keys and WASD keys to their directions.
    pub fn direction_wasd(&self) -> (r: Option<Direction>)
        ensures
            r == direction_of(*self, 'w', 'a', 's', 'd'),
    {
        self.direction('w', 'a', 's', 'd')
    }

    /// Create an event from the key of a crossterm key event, if possible: a
    /// key that this type knows becomes that key, every other gives `None`.
    /// This tells the variants of `crossterm::event::KeyCode` apart; nothing is
    /// stated of the result.
    #[verifier::external_body]
    pub fn from_crossterm_event(code: crossterm::event::KeyCode) -> (r: Option<Self>) {
        match code {
            crossterm::event::KeyCode::Backspace => Some(Event::Backspace),
            crossterm::event::KeyCode::Enter => Some(Event::Enter),
            crossterm::event::KeyCode::Left => Some(Event::Left),
            crossterm::event::KeyCode::Right => Some(Event::Right),
            crossterm::event::KeyCode::Up => Some(Event::Up),
            crossterm::event::KeyCode::Down => Some(Event::Down),
            crossterm::event::KeyCode::Tab => Some(Event::Tab),
            crossterm::event::KeyCode::Char(c) => Some(Event::Char(c)),
            crossterm::event::KeyCode::Esc => Some(Event::Esc),
            _ => None,
        }
    }
}

} // verus!
