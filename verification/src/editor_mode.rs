//! The editor mode: build walls and floors, tune the unit template and
//! place units on a fresh world.

use vstd::prelude::*;
use vstd::string::StringExecFns;
use crate::actions::{Action, BuildTool, Notice};
use crate::editor::{EditorInput, EntitySpec, InputTarget};
use crate::position::MapPosition;
use crate::world::WorldState;

verus! {

/// Editor state: a world being built, the active tool, the unit
/// template, and the numeric-input manager.
pub struct EditorMode {
    world_state: WorldState,
    current_tool: BuildTool,
    notice: Notice,
    entity_spec: EntitySpec,
    input_manager: EditorInput,
}

impl EditorMode {
    pub closed spec fn spec_world(self) -> WorldState {
        self.world_state
    }

    pub closed spec fn spec_tool(self) -> BuildTool {
        self.current_tool
    }

    pub closed spec fn spec_notice(self) -> Notice {
        self.notice
    }

    pub closed spec fn spec_entity_spec(self) -> EntitySpec {
        self.entity_spec
    }

    pub closed spec fn spec_input(self) -> EditorInput {
        self.input_manager
    }

    pub open spec fn wf(self) -> bool {
        self.spec_world().wf()
    }

    pub fn new() -> (r: Self)
        ensures
            r.wf(),
            r.spec_world().entities@.len() == 0,
            r.spec_world().next_entity_id == 0,
            r.spec_tool() == BuildTool::Wall,
            r.spec_notice() == Notice::EditorHint,
            r.spec_entity_spec() == EntitySpec::spec_starting(),
            r.spec_input().input_target == InputTarget::Idle,
    {
        EditorMode {
            world_state: WorldState::new(),
            current_tool: BuildTool::Wall,
            notice: Notice::EditorHint,
            entity_spec: EntitySpec::starting(),
            input_manager: EditorInput::new(),
        }
    }

    pub fn world(&self) -> (r: &WorldState)
        ensures
            *r == self.spec_world(),
    {
        &self.world_state
    }

    pub fn current_tool(&self) -> (r: BuildTool)
        ensures
            r == self.spec_tool(),
    {
        self.current_tool
    }

    /// The latest status notice, for the shell to render.
    pub fn debug_message(&self) -> (r: Notice)
        ensures
            r == self.spec_notice(),
    {
        self.notice
    }

    pub fn entity_spec(&self) -> (r: &EntitySpec)
        ensures
            *r == self.spec_entity_spec(),
    {
        &self.entity_spec
    }

    pub fn input_target(&self) -> (r: InputTarget)
        ensures
            r == self.spec_input().input_target,
    {
        self.input_manager.input_target
    }

    pub fn input_buffer(&self) -> (r: &Vec<char>)
        ensures
            r@ == self.spec_input().input_buffer@,
    {
        &self.input_manager.input_buffer
    }

    /// Records the outcome of the save the shell performed.
    pub fn note_save_result(&mut self, ok: bool)
        requires
            old(self).wf(),
        ensures
            final(self).wf(),
            final(self).spec_world() == old(self).spec_world(),
            ok ==> final(self).spec_notice() == Notice::SaveDone,
            !ok ==> final(self).spec_notice() == Notice::SaveFailed,
    {
        self.notice = if ok {
            Notice::SaveDone
        } else {
            Notice::SaveFailed
        };
    }

    /// Advances the tool: wall, floor, unit, and around again.
    pub fn cycle_tool(&mut self)
        requires
            old(self).wf(),
        ensures
            final(self).wf(),
            final(self).spec_world() == old(self).spec_world(),
            final(self).spec_tool() == (match old(self).spec_tool() {
                BuildTool::Wall => BuildTool::Floor,
                BuildTool::Floor => BuildTool::Unit,
                BuildTool::Unit => BuildTool::Wall,
            }),
            final(self).spec_notice() == Notice::BuildToolSelected(final(self).spec_tool()),
    {
        self.current_tool = match self.current_tool {
            BuildTool::Wall => BuildTool::Floor,
            BuildTool::Floor => BuildTool::Unit,
            BuildTool::Unit => BuildTool::Wall,
        };
        self.notice = Notice::BuildToolSelected(self.current_tool);
    }

    fn set_tool(&mut self, tool: BuildTool)
        requires
            old(self).wf(),
        ensures
            final(self).wf(),
            final(self).spec_world() == old(self).spec_world(),
            final(self).spec_tool() == tool,
            final(self).spec_notice() == Notice::BuildToolSelected(tool),
            final(self).spec_input() == old(self).spec_input(),
            final(self).spec_entity_spec() == old(self).spec_entity_spec(),
    {
        self.current_tool = tool;
        self.notice = Notice::BuildToolSelected(tool);
    }

    /// A click on the map applies the active tool at that tile: building
    /// a wall, clearing to floor, or spawning a unit from the template.
    /// During a numeric edit a click commits the edit instead.
    pub fn handle_click(&mut self, pos: MapPosition)
        requires
            old(self).wf(),
        ensures
            final(self).wf(),
            final(self).spec_tool() == old(self).spec_tool(),
            ({
                let idle = old(self).spec_input().input_target == InputTarget::Idle;
                let w = old(self).spec_world();
                &&& (!idle ==> final(self).spec_world() == w)
                &&& (idle && old(self).spec_tool() == BuildTool::Wall && w.map.spec_is_walkable(
                    pos,
                ) ==> final(self).spec_world().map.tile_at(pos).spec_is_solid() && final(self).spec_notice() == Notice::BuiltWall(pos))
                &&& (idle && old(self).spec_tool() == BuildTool::Floor && w.map.spec_in_bounds(pos)
                    ==> final(self).spec_world().map.tile_at(pos).spec_is_walkable() && final(self).spec_notice() == Notice::ClearedTile(pos))
            }),
    {
        if !matches!(self.input_manager.input_target, InputTarget::Idle) {
            self.confirm_input();
            return ;
        }
        match self.current_tool {
            BuildTool::Wall => {
                if self.world_state.build_wall(pos) {
                    self.notice = Notice::BuiltWall(pos);
                }
            },
            BuildTool::Floor => {
                self.world_state.build_floor(pos);
                self.notice = Notice::ClearedTile(pos);
            },
            BuildTool::Unit => {
                // ids are never reused and placed units start alive, so a
                // full counter or a lifeless template refuses the spawn
                if self.world_state.next_entity_id == u32::MAX || self.entity_spec.hp == 0 {
                    self.notice = Notice::SpawnFailed;
                    return ;
                }
                let name = if self.entity_spec.team == 1 {
                    String::from_str("Player")
                } else {
                    String::from_str("Enemy")
                };
                let spawned = self.world_state.spawn_entity(
                    pos,
                    self.entity_spec.symbol,
                    name,
                    self.entity_spec.hp,
                    self.entity_spec.energy,
                    self.entity_spec.damage,
                    self.entity_spec.range,
                    self.entity_spec.team,
                    self.entity_spec.is_ai,
                );
                self.notice = match spawned {
                    Some(id) => Notice::SpawnedUnit(id),
                    None => Notice::SpawnBlocked,
                };
            },
        }
    }

    /// Keyboard shortcuts: tool keys, save, back to menu, and starting a
    /// numeric edit of the template.
    pub fn handle_keypress(&mut self, key: char) -> (r: Option<Action>)
        requires
            old(self).wf(),
        ensures
            final(self).wf(),
            old(self).spec_input().input_target != InputTarget::Idle ==> r is None && *final(self)
                == *old(self),
            (key == 'q' || key == 'Q') && old(self).spec_input().input_target == InputTarget::Idle
                ==> r == Some(Action::BackToMenu),
            (key == 's' || key == 'S') && old(self).spec_input().input_target == InputTarget::Idle
                ==> r == Some(Action::SaveMap),
            (key == 'w' || key == 'W') && old(self).spec_input().input_target == InputTarget::Idle
                ==> final(self).spec_tool() == BuildTool::Wall,
            (key == 'f' || key == 'F') && old(self).spec_input().input_target == InputTarget::Idle
                ==> final(self).spec_tool() == BuildTool::Floor,
            (key == 'u' || key == 'U') && old(self).spec_input().input_target == InputTarget::Idle
                ==> final(self).spec_tool() == BuildTool::Unit,
    {
        if !matches!(self.input_manager.input_target, InputTarget::Idle) {
            return None;
        }
        match key {
            'w' | 'W' => self.set_tool(BuildTool::Wall),
            'f' | 'F' => self.set_tool(BuildTool::Floor),
            'u' | 'U' => self.set_tool(BuildTool::Unit),
            's' | 'S' => {
                return Some(Action::SaveMap);
            },
            'q' | 'Q' => {
                return Some(Action::BackToMenu);
            },
            't' | 'T' => self.start_input(InputTarget::Team),
            'h' | 'H' => self.start_input(InputTarget::Hp),
            'e' | 'E' => self.start_input(InputTarget::Energy),
            'd' | 'D' => self.start_input(InputTarget::Damage),
            'a' | 'A' => {
                self.entity_spec.toggle_ai();
                self.notice = Notice::AiToggled(self.entity_spec.is_ai);
            },
            _ => {},
        }
        None
    }

    /// Clicks on the sidebar menu, by row: tools, save, back to menu,
    /// and the template's numeric fields.
    pub fn handle_menu_click(&mut self, _screen_x: i32, screen_y: i32) -> (r: Option<Action>)
        requires
            old(self).wf(),
        ensures
            final(self).wf(),
            screen_y == 9 && old(self).spec_input().input_target == InputTarget::Idle ==> r
                == Some(Action::BackToMenu),
            screen_y == 7 && old(self).spec_input().input_target == InputTarget::Idle ==> r
                == Some(Action::SaveMap),
    {
        if !matches!(self.input_manager.input_target, InputTarget::Idle) {
            self.confirm_input();
        }
        match screen_y {
            3 => self.set_tool(BuildTool::Wall),
            4 => self.set_tool(BuildTool::Floor),
            5 => self.set_tool(BuildTool::Unit),
            7 => {
                return Some(Action::SaveMap);
            },
            9 => {
                return Some(Action::BackToMenu);
            },
            12 => self.start_input(InputTarget::Team),
            13 => self.start_input(InputTarget::Hp),
            14 => self.start_input(InputTarget::Energy),
            15 => self.start_input(InputTarget::Damage),
            16 => {
                self.entity_spec.toggle_ai();
                self.notice = Notice::AiToggled(self.entity_spec.is_ai);
            },
            _ => {},
        }
        None
    }

    /// Routes a typed character into the numeric edit.
    pub fn handle_typing(&mut self, c: char)
        requires
            old(self).wf(),
        ensures
            final(self).wf(),
            final(self).spec_world() == old(self).spec_world(),
    {
        self.input_manager.handle_typing(c);
    }

    /// Removes the last typed character of the numeric edit.
    pub fn handle_backspace(&mut self)
        requires
            old(self).wf(),
        ensures
            final(self).wf(),
            final(self).spec_world() == old(self).spec_world(),
    {
        self.input_manager.handle_backspace();
    }

    /// Commits the numeric edit into the template.
    pub fn confirm_input(&mut self)
        requires
            old(self).wf(),
        ensures
            final(self).wf(),
            final(self).spec_world() == old(self).spec_world(),
            final(self).spec_tool() == old(self).spec_tool(),
            final(self).spec_input().input_target == InputTarget::Idle,
    {
        if let Some(msg) = self.input_manager.confirm(&mut self.entity_spec) {
            self.notice = msg;
        }
    }

    /// Abandons the numeric edit.
    pub fn cancel_input(&mut self)
        requires
            old(self).wf(),
        ensures
            final(self).wf(),
            final(self).spec_world() == old(self).spec_world(),
            final(self).spec_input().input_target == InputTarget::Idle,
            final(self).spec_notice() == Notice::EditCancelled,
    {
        self.input_manager.cancel();
        self.notice = Notice::EditCancelled;
    }

    fn start_input(&mut self, target: InputTarget)
        requires
            old(self).wf(),
        ensures
            final(self).wf(),
            final(self).spec_world() == old(self).spec_world(),
            final(self).spec_input().input_target == target,
            final(self).spec_input().input_buffer@.len() == 0,
            final(self).spec_notice() == Notice::EditPrompt(target),
    {
        self.input_manager.cancel();
        self.input_manager.input_target = target;
        self.notice = Notice::EditPrompt(target);
    }
}

} // verus!
