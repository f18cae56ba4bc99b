//! The screens of the game: which one is shown and which one comes next.
use vstd::prelude::*;

use crate::editor::Editor;
use crate::gameplay::Gameplay;
use crate::menu::Menu;

verus! {

/// The screen the game shows.
pub enum GameState {
    Menu(Menu),
    Editor(Box<Editor>),
    Gameplay(Box<Gameplay>),
}

impl Default for GameState {
    /// The game starts in the main menu, nothing chosen.
    fn default() -> (r: GameState)
        ensures
            r matches GameState::Menu(m) && m.chosen_level is None && !m.should_start_level && !m.should_start_editor,
    {
        GameState::Menu(Menu::new())
    }
}

/// The screen to switch to.
#[derive(PartialEq, Eq, Debug)]
pub enum PlannedGameState {
    /// The main menu.
    Menu,
    /// The level editor.
    Editor,
    /// A level to play, by the path of its file.
    Gameplay(String),
}

} // verus!
