use vstd::prelude::*;

use crate::input::Key;

verus! {

/// A list of menu entries with a highlighted selection.
#[derive(Debug)]
pub struct Menu {
    pub menu_titles: Vec<String>,
    pub highlight_text: Option<String>,
    pub selection: usize,
    pub selected: bool,
    pub exit: bool,
}

/// Moving the highlight through a list.
pub trait Selection {
    fn select_up(&mut self);

    fn select_down(&mut self);
}

impl Selection for Menu {
    /// Moves the highlight up one entry, unless at the top.
    fn select_up(&mut self)
        ensures
            final(self).selection == if old(self).selection > 0 && old(self).selection < old(self).menu_titles@.len() {
                (old(self).selection - 1) as usize
            } else {
                old(self).selection
            },
            final(self).menu_titles@ == old(self).menu_titles@,
            final(self).selected == old(self).selected,
            final(self).exit == old(self).exit,
    {
        if self.selection > 0 && self.selection < self.menu_titles.len() {
            self.selection -= 1;
        }
    }

    /// Moves the highlight down one entry while it is on an entry, so it can end one past the
    /// last entry.
    fn select_down(&mut self)
        ensures
            final(self).selection == if old(self).selection < old(self).menu_titles@.len() {
                (old(self).selection + 1) as usize
            } else {
                old(self).selection
            },
            final(self).menu_titles@ == old(self).menu_titles@,
            final(self).selected == old(self).selected,
            final(self).exit == old(self).exit,
    {
        if self.selection < self.menu_titles.len() {
            self.selection += 1;
        }
    }
}

impl Menu {
    /// Reacts to one key press while reading menu input: `q` asks to exit, enter or right
    /// selects, up and down move the highlight. Returns whether to stop reading keys.
    pub fn handle_key(&mut self, key: Key) -> (stop: bool)
        ensures
            final(self).menu_titles@ == old(self).menu_titles@,
            stop == match key {
                Key::Char('q') | Key::Char('\n') | Key::Up | Key::Down | Key::Right => true,
                _ => false,
            },
            final(self).exit == (old(self).exit || key == Key::Char('q')),
            final(self).selected == (old(self).selected || key == Key::Char('\n') || key == Key::Right),
            final(self).selection == match key {
                Key::Up => if old(self).selection > 0 && old(self).selection < old(self).menu_titles@.len() {
                    (old(self).selection - 1) as usize
                } else {
                    old(self).selection
                },
                Key::Down => if old(self).selection < old(self).menu_titles@.len() {
                    (old(self).selection + 1) as usize
                } else {
                    old(self).selection
                },
                _ => old(self).selection,
            },
    {
        match key {
            Key::Char('q') => {
                self.exit = true;
                true
            },
            Key::Char('\n') => {
                self.selected = true;
                true
            },
            Key::Up => {
                self.select_up();
                true
            },
            Key::Down => {
                self.select_down();
                true
            },
            Key::Right => {
                self.selected = true;
                true
            },
            _ => false,
        }
    }
}

/// The entries of the start menu, in the order they are listed.
#[derive(Copy, Clone, PartialEq, Eq, Structural, Debug)]
pub enum StartMenuChoice {
    Play,
    Settings,
    Info,
    Quit,
}

/// The start menu entry at a listed position.
pub open spec fn choice_at(selection: int) -> Option<StartMenuChoice> {
    if selection == 0 {
        Some(StartMenuChoice::Play)
    } else if selection == 1 {
        Some(StartMenuChoice::Settings)
    } else if selection == 2 {
        Some(StartMenuChoice::Info)
    } else if selection == 3 {
        Some(StartMenuChoice::Quit)
    } else {
        None
    }
}

/// The start menu entry at a listed position, if there is one there.
pub fn start_menu_choice(selection: usize) -> (r: Option<StartMenuChoice>)
    ensures
        r == choice_at(selection as int),
{
    match selection {
        0 => Some(StartMenuChoice::Play),
        1 => Some(StartMenuChoice::Settings),
        2 => Some(StartMenuChoice::Info),
        3 => Some(StartMenuChoice::Quit),
        _ => None,
    }
}

/// The choice that the start menu's state gives once a key has been handled: quitting when it
/// was asked to exit, the highlighted entry once one was selected, and none yet otherwise.
pub fn start_menu_selection(menu: &Menu) -> (r: Option<StartMenuChoice>)
    ensures
        r == if menu.exit {
            Some(StartMenuChoice::Quit)
        } else if menu.selected {
            choice_at(menu.selection as int)
        } else {
            None
        },
{
    if menu.exit {
        Some(StartMenuChoice::Quit)
    } else if menu.selected {
        start_menu_choice(menu.selection)
    } else {
        None
    }
}

/// What the game does for a start menu choice.
#[derive(Copy, Clone, PartialEq, Eq, Structural, Debug)]
pub enum StartMenuAction {
    /// Starts a new game.
    StartGame,
    /// Goes back to the game that is running.
    Resume,
    ShowSettings,
    ShowInfo,
    /// Leaves the game.
    Exit,
}

/// What the game does for `choice`, and whether a game is running afterwards: play starts a
/// game unless one is running, which it resumes; quitting ends any running game; settings and
/// info leave it as it is.
pub fn start_menu_action(choice: StartMenuChoice, game_running: bool) -> (r: (StartMenuAction, bool))
    ensures
        r == match choice {
            StartMenuChoice::Play => if game_running {
                (StartMenuAction::Resume, true)
            } else {
                (StartMenuAction::StartGame, false)
            },
            StartMenuChoice::Settings => (StartMenuAction::ShowSettings, game_running),
            StartMenuChoice::Info => (StartMenuAction::ShowInfo, game_running),
            StartMenuChoice::Quit => (StartMenuAction::Exit, false),
        },
{
    match choice {
        StartMenuChoice::Play => if game_running {
            (StartMenuAction::Resume, true)
        } else {
            (StartMenuAction::StartGame, false)
        },
        StartMenuChoice::Settings => (StartMenuAction::ShowSettings, game_running),
        StartMenuChoice::Info => (StartMenuAction::ShowInfo, game_running),
        StartMenuChoice::Quit => (StartMenuAction::Exit, false),
    }
}

} // verus!
