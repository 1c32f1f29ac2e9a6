//! The top-level mode machine: menu, editor, play, exiting.
//!
//! Transitions are pure functions from the current mode and an action to
//! the next mode. Work only the shell can do (reading and writing
//! snapshots) is handed back as an [`AppRequest`]; the shell performs it
//! and reports the result through the `finish_*` methods.

use vstd::prelude::*;
use crate::actions::{Action, AppRequest, MenuSelection};
use crate::editor_mode::EditorMode;
use crate::game_mode::GameMode;
use crate::world::WorldState;

verus! {

/// The mode the application is in, with that mode's state.
pub enum AppState {
    Menu,
    Editor(EditorMode),
    Game(GameMode),
    Exiting,
}

impl AppState {
    /// Every held world satisfies the world invariant.
    pub open spec fn wf(self) -> bool {
        match self {
            AppState::Menu => true,
            AppState::Editor(e) => e.wf(),
            AppState::Game(g) => g.wf(),
            AppState::Exiting => true,
        }
    }
}

/// The application: one [`AppState`] at a time.
pub struct ApplicationState {
    pub state: AppState,
}

impl ApplicationState {
    pub open spec fn wf(self) -> bool {
        self.state.wf()
    }

    pub fn new() -> (r: Self)
        ensures
            r.wf(),
            r.state is Menu,
    {
        ApplicationState { state: AppState::Menu }
    }

    /// Applies one abstract input action to the current mode and yields
    /// the shell work it calls for, if any.
    ///
    /// Quitting always leads to `Exiting`; `BackToMenu` leaves editor or
    /// game for the menu; menu selections open the editor directly or
    /// request a world load; saving from the editor requests a save;
    /// everything else is delegated to the active mode.
    pub fn apply_action(&mut self, action: Action) -> (r: Option<AppRequest>)
        requires
            old(self).wf(),
        ensures
            final(self).wf(),
            action == Action::QuitApp && !(old(self).state is Menu) ==> final(self).state
                is Exiting,
            old(self).state is Menu ==> {
                &&& (action == Action::QuitApp ==> final(self).state is Exiting)
                &&& (action == Action::MenuSelect(MenuSelection::EnterBuildMode) ==> final(self).state is Editor)
                &&& (action == Action::MenuSelect(MenuSelection::EnterPlayMode) ==> final(self).state is Menu && r == Some(AppRequest::LoadStandardWorld))
                &&& (action == Action::MenuSelect(MenuSelection::LoadLatest) ==> final(self).state
                    is Menu && r == Some(AppRequest::LoadLatestWorld))
            },
            old(self).state is Editor && action == Action::BackToMenu ==> final(self).state
                is Menu,
            old(self).state is Game && action == Action::BackToMenu ==> final(self).state is Menu,
            old(self).state is Editor && action == Action::SaveMap ==> r == Some(
                AppRequest::SaveEditorWorld,
            ),
            r is Some ==> (old(self).state is Menu && final(self).state is Menu) || (old(self).state is Editor && final(self).state is Editor),
    {
        match &mut self.state {
            AppState::Menu => {
                match action {
                    Action::MenuSelect(MenuSelection::EnterBuildMode) => {
                        self.state = AppState::Editor(EditorMode::new());
                    },
                    Action::MenuSelect(MenuSelection::EnterPlayMode) => {
                        return Some(AppRequest::LoadStandardWorld);
                    },
                    Action::MenuSelect(MenuSelection::LoadLatest) => {
                        return Some(AppRequest::LoadLatestWorld);
                    },
                    Action::QuitApp => {
                        self.state = AppState::Exiting;
                    },
                    _ => {},
                }
            },
            AppState::Editor(editor) => {
                match action {
                    Action::QuitApp => {
                        self.state = AppState::Exiting;
                    },
                    Action::BackToMenu => {
                        self.state = AppState::Menu;
                    },
                    Action::CycleBuildTool => {
                        editor.cycle_tool();
                    },
                    Action::SaveMap => {
                        return Some(AppRequest::SaveEditorWorld);
                    },
                    Action::EditorClick { pos } => {
                        editor.handle_click(pos);
                    },
                    Action::EditorMenuClick { screen_x, screen_y } => {
                        match editor.handle_menu_click(screen_x, screen_y) {
                            Some(Action::BackToMenu) => {
                                self.state = AppState::Menu;
                            },
                            Some(Action::SaveMap) => {
                                return Some(AppRequest::SaveEditorWorld);
                            },
                            _ => {},
                        }
                    },
                    Action::EditorType(c) => {
                        editor.handle_typing(c);
                    },
                    Action::EditorConfirm => {
                        editor.confirm_input();
                    },
                    Action::EditorBackspace => {
                        editor.handle_backspace();
                    },
                    Action::EditorCancel => {
                        editor.cancel_input();
                    },
                    Action::EditorKeyPress(key) => {
                        match editor.handle_keypress(key) {
                            Some(Action::BackToMenu) => {
                                self.state = AppState::Menu;
                            },
                            Some(Action::SaveMap) => {
                                return Some(AppRequest::SaveEditorWorld);
                            },
                            _ => {},
                        }
                    },
                    _ => {},
                }
            },
            AppState::Game(game) => {
                match action {
                    Action::QuitApp => {
                        self.state = AppState::Exiting;
                    },
                    Action::BackToMenu => {
                        self.state = AppState::Menu;
                    },
                    Action::GameClick { pos } => {
                        game.handle_click(pos);
                    },
                    Action::GameMenuClick { screen_x, screen_y } => {
                        match game.handle_menu_click(screen_x, screen_y) {
                            Some(Action::BackToMenu) => {
                                self.state = AppState::Menu;
                            },
                            _ => {},
                        }
                    },
                    Action::GameKeyPress(key) => {
                        match game.handle_keypress(key) {
                            Some(Action::BackToMenu) => {
                                self.state = AppState::Menu;
                            },
                            _ => {},
                        }
                    },
                    _ => {},
                }
            },
            AppState::Exiting => {},
        }
        None
    }

    /// The shell reports a finished load: a world enters play mode, an
    /// absent one leaves the current mode as it is.
    pub fn finish_load(&mut self, loaded: Option<WorldState>)
        requires
            old(self).wf(),
            loaded matches Some(w) ==> w.wf(),
        ensures
            final(self).wf(),
            loaded is Some ==> final(self).state is Game,
            loaded is None ==> *final(self) == *old(self),
    {
        match loaded {
            Some(w) => {
                self.state = AppState::Game(GameMode::new(w));
            },
            None => {},
        }
    }

    /// The shell reports a finished save; the editor shows the outcome.
    pub fn finish_save(&mut self, ok: bool)
        requires
            old(self).wf(),
        ensures
            final(self).wf(),
    {
        match &mut self.state {
            AppState::Editor(editor) => {
                editor.note_save_result(ok);
            },
            _ => {},
        }
    }
}

} // verus!
