//! Abstract input actions, tool palettes and status notices.

use vstd::prelude::*;
use crate::engine::ActionError;
use crate::entity::EntityID;
use crate::position::MapPosition;

verus! {

/// Choice made on the main menu.
#[derive(Debug, Clone, Copy, PartialEq, Eq, Structural)]
pub enum MenuSelection {
    EnterBuildMode,
    EnterPlayMode,
    LoadLatest,
}

/// Tool selected in the map editor.
#[derive(Debug, Clone, Copy, PartialEq, Eq, Structural)]
pub enum BuildTool {
    Wall,
    Floor,
    Unit,
}

/// Tool selected during play.
#[derive(Debug, Clone, Copy, PartialEq, Eq, Structural)]
pub enum GameTool {
    Select,
    Move,
    Attack,
    Skill,
}

/// An abstract input event, decoded by the shell from keys and clicks.
#[derive(Debug, Clone, Copy, PartialEq, Eq, Structural)]
pub enum Action {
    QuitApp,
    BackToMenu,
    MenuSelect(MenuSelection),
    CycleBuildTool,
    SaveMap,
    EditorClick { pos: MapPosition },
    EditorMenuClick { screen_x: i32, screen_y: i32 },
    EditorType(char),
    EditorKeyPress(char),
    EditorBackspace,
    EditorConfirm,
    EditorCancel,
    GameClick { pos: MapPosition },
    GameMenuClick { screen_x: i32, screen_y: i32 },
    GameKeyPress(char),
}

/// Work that only the shell can carry out for the state machine: reading
/// and writing snapshots. The shell performs the request and reports
/// back through [`crate::app_state::ApplicationState`].
#[derive(Debug, Clone, Copy, PartialEq, Eq, Structural)]
pub enum AppRequest {
    /// Persist the editor's world.
    SaveEditorWorld,
    /// Load the standard scenario and enter play mode with it.
    LoadStandardWorld,
    /// Load the most recently saved world and enter play mode with it.
    LoadLatestWorld,
}

/// A status message for the user, as a value; the shell renders the text.
#[derive(Debug, Clone, Copy, PartialEq, Eq, Structural)]
pub enum Notice {
    GameStart,
    EditorHint,
    ToolSelected(GameTool),
    BuildToolSelected(BuildTool),
    SaveDone,
    SaveFailed,
    BuiltWall(MapPosition),
    ClearedTile(MapPosition),
    SpawnedUnit(EntityID),
    SpawnFailed,
    SpawnBlocked,
    EditPrompt(crate::editor::InputTarget),
    EditCancelled,
    EditEmpty,
    InvalidNumber,
    SetTeam { team: u32, symbol: char },
    SetHp(u32),
    SetEnergy(u32),
    SetDamage(u32),
    AiToggled(bool),
    SelectedUnit(EntityID),
    SelectionCleared,
    Moved,
    MoveFailed(ActionError),
    AttackHit { damage: u32, fatal: bool },
    AttackFailed(ActionError),
    NoTargetThere,
    SelectFirst,
    SkillsUnimplemented,
    AiActed { attacker: EntityID, target: EntityID },
    TurnChanged(u32),
    TurnWaiting,
}

} // verus!
