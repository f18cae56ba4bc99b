//! The main menu.
use vstd::prelude::*;

use crate::states::PlannedGameState;

verus! {

/// Which of the menu's windows are open.
pub struct ShouldDrawWindow {
    pub choose_level: bool,
    pub settings: bool,
}

/// The state of the main menu.
pub struct Menu {
    pub should_draw_window: ShouldDrawWindow,
    pub chosen_level: Option<String>,
    pub should_start_level: bool,
    pub should_start_editor: bool,
}

impl Menu {
    /// A menu with every window closed and nothing chosen.
    pub fn new() -> (r: Menu)
        ensures
            !r.should_draw_window.choose_level,
            !r.should_draw_window.settings,
            r.chosen_level is None,
            !r.should_start_level,
            !r.should_start_editor,
    {
        Menu {
            should_draw_window: ShouldDrawWindow { choose_level: false, settings: false },
            chosen_level: None,
            should_start_level: false,
            should_start_editor: false,
        }
    }

    /// The screen to switch to: the chosen level once starting it was asked
    /// for, otherwise the editor once it was asked for.
    pub fn planned(&self) -> (r: Option<PlannedGameState>)
        ensures
            (self.chosen_level is Some && self.should_start_level) ==> (r matches Some(PlannedGameState::Gameplay(path)) && path@ == self.chosen_level->Some_0@),
            !(self.chosen_level is Some && self.should_start_level) && self.should_start_editor ==> r == Some(PlannedGameState::Editor),
            !(self.chosen_level is Some && self.should_start_level) && !self.should_start_editor ==> r is None,
    {
        match &self.chosen_level {
            Some(level_path) => {
                if self.should_start_level {
                    return Some(PlannedGameState::Gameplay(level_path.clone()));
                }
            },
            None => {},
        }
        if self.should_start_editor {
            Some(PlannedGameState::Editor)
        } else {
            None
        }
    }
}

impl Default for Menu {
    fn default() -> (r: Menu)
        ensures
            !r.should_draw_window.choose_level,
            !r.should_draw_window.settings,
            r.chosen_level is None,
            !r.should_start_level,
            !r.should_start_editor,
    {
        Menu::new()
    }
}

} // verus!
