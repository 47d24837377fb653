use vstd::prelude::*;

use crate::position::Side;

verus! {

/// A key press, as far as the game reads it.
#[derive(Copy, Clone, PartialEq, Eq, Structural, Debug)]
pub enum Key {
    Up,
    Down,
    Left,
    Right,
    Backspace,
    Esc,
    Char(char),
    Other,
}

/// An action the player can take.
#[derive(Copy, Clone, PartialEq, Eq, Structural, Debug)]
pub enum Action {
    ShowInventory,
    LookAround,
    OpenNearby,
    /// Opens the pause menu, closes a container view, etc.
    Escape,
}

/// A movement input.
#[derive(Copy, Clone, PartialEq, Eq, Structural, Debug)]
pub enum Input {
    UP(Side),
    DOWN(Side),
    LEFT(Side),
    RIGHT(Side),
    UNKNOWN,
}

/// The side a movement key points to: arrows or WASD.
pub open spec fn side_of_key(key: Key) -> Option<Side> {
    match key {
        Key::Up | Key::Char('w') => Some(Side::TOP),
        Key::Down | Key::Char('s') => Some(Side::BOTTOM),
        Key::Left | Key::Char('a') => Some(Side::LEFT),
        Key::Right | Key::Char('d') => Some(Side::RIGHT),
        _ => None,
    }
}

pub fn key_to_side(key: Key) -> (r: Option<Side>)
    ensures
        r == side_of_key(key),
{
    match key {
        Key::Up | Key::Char('w') => Some(Side::TOP),
        Key::Down | Key::Char('s') => Some(Side::BOTTOM),
        Key::Left | Key::Char('a') => Some(Side::LEFT),
        Key::Right | Key::Char('d') => Some(Side::RIGHT),
        _ => None,
    }
}

pub fn key_to_input(key: Key) -> (r: Option<Input>)
    ensures
        r == match side_of_key(key) {
            Some(Side::TOP) => Some(Input::UP(Side::TOP)),
            Some(Side::BOTTOM) => Some(Input::DOWN(Side::BOTTOM)),
            Some(Side::LEFT) => Some(Input::LEFT(Side::LEFT)),
            Some(Side::RIGHT) => Some(Input::RIGHT(Side::RIGHT)),
            None => None::<Input>,
        },
{
    match key {
        Key::Up | Key::Char('w') => Some(Input::UP(Side::TOP)),
        Key::Down | Key::Char('s') => Some(Input::DOWN(Side::BOTTOM)),
        Key::Left | Key::Char('a') => Some(Input::LEFT(Side::LEFT)),
        Key::Right | Key::Char('d') => Some(Input::RIGHT(Side::RIGHT)),
        _ => None,
    }
}

pub fn key_to_action(key: Key) -> (r: Option<Action>)
    ensures
        r == match key {
            Key::Char('i') => Some(Action::ShowInventory),
            Key::Char('l') => Some(Action::LookAround),
            Key::Char('o') => Some(Action::OpenNearby),
            Key::Esc => Some(Action::Escape),
            _ => None::<Action>,
        },
{
    match key {
        Key::Char('i') => Some(Action::ShowInventory),
        Key::Char('l') => Some(Action::LookAround),
        Key::Char('o') => Some(Action::OpenNearby),
        Key::Esc => Some(Action::Escape),
        _ => None,
    }
}

/// A key source that replays recorded keys.
#[derive(Debug)]
pub struct MockKeyInputResolver {
    pub key_results: Vec<Key>,
}

impl MockKeyInputResolver {
    /// The first recorded key.
    pub fn get_input_key(&self) -> (k: Key)
        requires
            self.key_results@.len() > 0,
        ensures
            k == self.key_results@[0],
    {
        self.key_results[0]
    }

    /// The given key, or else the first recorded one.
    pub fn get_or_return_input_key(&self, input: Option<Key>) -> (k: Key)
        requires
            input is None ==> self.key_results@.len() > 0,
        ensures
            k == match input {
                Some(key) => key,
                None => self.key_results@[0],
            },
    {
        match input {
            Some(input_key) => input_key,
            None => self.key_results[0],
        }
    }
}

} // verus!
