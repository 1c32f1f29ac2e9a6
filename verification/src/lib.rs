//! A turn-based tactical simulation engine: a grid map populated with
//! team-owned units that move, attack and take turns, plus a pursuit AI
//! for non-player teams.
//!
//! The crate owns the world model (map and entities), the action
//! validation and resolution engine, breadth-first pathfinding, the AI
//! decision loop, the editor and application state machines, and a
//! snapshot codec for persistence. Rendering and input decoding live
//! outside the library.

pub mod actions;
pub mod app_state;
pub mod ai;
pub mod editor;
pub mod editor_mode;
pub mod engine;
pub mod game_mode;
pub mod entity;
pub mod grid;
pub mod pathfinding;
pub mod position;
pub mod snapshot;
pub mod tile;
pub mod world;

pub use app_state::{AppState, ApplicationState};
pub use actions::{Action, AppRequest, BuildTool, GameTool, MenuSelection, Notice};
pub use ai::{AiDecision, AiEvent, AiSystem};
pub use editor::{parse_u32, EditorInput, EntitySpec, InputTarget};
pub use editor_mode::EditorMode;
pub use engine::{ActionError, ActionResult, GameEngine, TurnResult};
pub use game_mode::GameMode;
pub use entity::{Entity, EntityID, ATTACK_COST, MOVE_COST};
pub use grid::GameMap;
pub use pathfinding::Pathfinding;
pub use position::MapPosition;
pub use snapshot::{world_from_snapshot, EntityModel, WorldModel};
pub use tile::{PowerupType, Tile, TileType};
pub use world::WorldState;
