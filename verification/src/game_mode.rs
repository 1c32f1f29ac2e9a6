//! The play mode: unit selection, tools, and the turn loop that lets
//! the acting team's AI units move before the turn rotates.

use vstd::prelude::*;
use crate::actions::{Action, GameTool, Notice};
use crate::ai::AiSystem;
use crate::engine::{ActionResult, GameEngine, TurnResult};
use crate::entity::EntityID;
use crate::position::MapPosition;
use crate::world::WorldState;

verus! {

/// Play-mode state: the engine owning the world, the selected unit, the
/// active tool and the latest status notice.
pub struct GameMode {
    engine: GameEngine,
    selected_entity_id: Option<EntityID>,
    notice: Notice,
    current_tool: GameTool,
}

impl GameMode {
    pub closed spec fn spec_world(self) -> WorldState {
        self.engine@
    }

    pub closed spec fn spec_selected(self) -> Option<EntityID> {
        self.selected_entity_id
    }

    pub closed spec fn spec_notice(self) -> Notice {
        self.notice
    }

    pub closed spec fn spec_tool(self) -> GameTool {
        self.current_tool
    }

    pub open spec fn wf(self) -> bool {
        self.spec_world().wf()
    }

    pub fn new(world_state: WorldState) -> (r: Self)
        requires
            world_state.wf(),
        ensures
            r.wf(),
            r.spec_world() == world_state,
            r.spec_selected() is None,
            r.spec_tool() == GameTool::Select,
            r.spec_notice() == Notice::GameStart,
    {
        GameMode {
            engine: GameEngine::new(world_state),
            selected_entity_id: None,
            notice: Notice::GameStart,
            current_tool: GameTool::Select,
        }
    }

    pub fn world(&self) -> (r: &WorldState)
        ensures
            *r == self.spec_world(),
    {
        self.engine.world()
    }

    pub fn current_tool(&self) -> (r: GameTool)
        ensures
            r == self.spec_tool(),
    {
        self.current_tool
    }

    pub fn selected_entity_id(&self) -> (r: Option<EntityID>)
        ensures
            r == self.spec_selected(),
    {
        self.selected_entity_id
    }

    /// The latest status notice, for the shell to render.
    pub fn debug_message(&self) -> (r: Notice)
        ensures
            r == self.spec_notice(),
    {
        self.notice
    }

    /// One frame of background work; the turn loop is driven explicitly
    /// through [`GameMode::end_turn_logic`], so a tick changes nothing.
    pub fn tick(&mut self)
        requires
            old(self).wf(),
        ensures
            *final(self) == *old(self),
    {
    }

    /// Keyboard shortcuts: tool keys, end turn, back to menu.
    pub fn handle_keypress(&mut self, key: char) -> (r: Option<Action>)
        requires
            old(self).wf(),
        ensures
            final(self).wf(),
            (key == 'q' || key == 'Q') ==> r == Some(Action::BackToMenu) && *final(self) == *old(self),
            key == '1' ==> final(self).spec_tool() == GameTool::Select,
            key == '2' ==> final(self).spec_tool() == GameTool::Move,
            key == '3' ==> final(self).spec_tool() == GameTool::Attack,
            key == '4' ==> final(self).spec_tool() == GameTool::Skill,
    {
        match key {
            '1' => self.switch_tool(GameTool::Select),
            '2' => self.switch_tool(GameTool::Move),
            '3' => self.switch_tool(GameTool::Attack),
            '4' => self.switch_tool(GameTool::Skill),
            't' | 'T' => self.end_turn_logic(),
            'q' | 'Q' => {
                return Some(Action::BackToMenu);
            },
            _ => {},
        }
        None
    }

    /// Clicks on the sidebar menu, by row: tools, end turn, back to menu.
    pub fn handle_menu_click(&mut self, _screen_x: i32, screen_y: i32) -> (r: Option<Action>)
        requires
            old(self).wf(),
        ensures
            final(self).wf(),
            screen_y == 10 ==> r == Some(Action::BackToMenu) && *final(self) == *old(self),
            screen_y == 3 ==> final(self).spec_tool() == GameTool::Select,
            screen_y == 4 ==> final(self).spec_tool() == GameTool::Move,
            screen_y == 5 ==> final(self).spec_tool() == GameTool::Attack,
            screen_y == 6 ==> final(self).spec_tool() == GameTool::Skill,
    {
        match screen_y {
            3 => self.switch_tool(GameTool::Select),
            4 => self.switch_tool(GameTool::Move),
            5 => self.switch_tool(GameTool::Attack),
            6 => self.switch_tool(GameTool::Skill),
            8 => self.end_turn_logic(),
            10 => {
                return Some(Action::BackToMenu);
            },
            _ => {},
        }
        None
    }

    /// A click on the map acts with the current tool at that tile.
    pub fn handle_click(&mut self, pos: MapPosition)
        requires
            old(self).wf(),
        ensures
            final(self).wf(),
    {
        match self.current_tool {
            GameTool::Select => self.do_select(pos),
            GameTool::Move => self.do_move(pos),
            GameTool::Attack => self.do_attack(pos),
            GameTool::Skill => {
                self.notice = Notice::SkillsUnimplemented;
            },
        }
    }

    fn switch_tool(&mut self, tool: GameTool)
        requires
            old(self).wf(),
        ensures
            final(self).wf(),
            final(self).spec_world() == old(self).spec_world(),
            final(self).spec_selected() == old(self).spec_selected(),
            final(self).spec_tool() == tool,
            final(self).spec_notice() == Notice::ToolSelected(tool),
    {
        self.current_tool = tool;
        self.notice = Notice::ToolSelected(tool);
    }

    /// Lets the acting team's AI units play out their activations, then
    /// rotates the turn to the next active team; back on the player's
    /// turn the tool snaps back to selection. The notice reports the
    /// rotation outcome; no entity appears or vanishes, and ids stay.
    pub fn end_turn_logic(&mut self)
        requires
            old(self).wf(),
        ensures
            final(self).wf(),
            final(self).spec_world().entities@.len() == old(self).spec_world().entities@.len(),
            final(self).spec_world().next_entity_id == old(self).spec_world().next_entity_id,
            final(self).spec_selected() == old(self).spec_selected(),
            (exists|nt: u32|
                final(self).spec_notice() == Notice::TurnChanged(nt) && final(self).spec_world().current_team_turn == nt && (nt == 1 ==> final(self).spec_tool()
                    == GameTool::Select) && (nt != 1 ==> final(self).spec_tool() == old(self).spec_tool())) || (final(self).spec_notice() == Notice::TurnWaiting && final(self).spec_world().current_team_turn == old(self).spec_world().current_team_turn && final(self).spec_tool() == old(self).spec_tool()),
    {
        let current_team = self.engine.current_team();
        let ai_logs = AiSystem::perform_turn(&mut self.engine, current_team);
        if ai_logs.len() > 0 {
            let last = &ai_logs[ai_logs.len() - 1];
            self.notice = Notice::AiActed { attacker: last.attacker, target: last.target };
        }
        match self.engine.end_turn() {
            TurnResult::TurnChanged(new_team) => {
                self.notice = Notice::TurnChanged(new_team);
                if new_team == 1 {
                    self.current_tool = GameTool::Select;
                }
            },
            TurnResult::TurnContinues => {
                self.notice = Notice::TurnWaiting;
            },
        }
    }

    /// Selects the unit on the clicked tile (or clears the selection),
    /// moving the selection flag from the old unit to the new one.
    fn do_select(&mut self, pos: MapPosition)
        requires
            old(self).wf(),
        ensures
            final(self).wf(),
            final(self).spec_selected() == (if old(self).spec_world().map.spec_in_bounds(pos) {
                old(self).spec_world().map.tile_at(pos).entity_id
            } else {
                None::<EntityID>
            }),
    {
        let clicked_id = self.engine.world().get_entity_id_at(pos);
        if let Some(old_id) = self.selected_entity_id {
            self.engine.world_mut().set_entity_selected(old_id, false);
        }
        self.selected_entity_id = clicked_id;
        match clicked_id {
            Some(new_id) => {
                self.engine.world_mut().set_entity_selected(new_id, true);
                self.notice = Notice::SelectedUnit(new_id);
            },
            None => {
                self.notice = Notice::SelectionCleared;
            },
        }
    }

    /// Asks the engine to move the selected unit to the clicked tile.
    fn do_move(&mut self, target_pos: MapPosition)
        requires
            old(self).wf(),
        ensures
            final(self).wf(),
            old(self).spec_selected() is None ==> final(self).spec_world() == old(self).spec_world() && final(self).spec_notice() == Notice::SelectFirst,
    {
        let id = match self.selected_entity_id {
            Some(id) => id,
            None => {
                self.notice = Notice::SelectFirst;
                return ;
            },
        };
        match self.engine.move_entity(id, target_pos) {
            ActionResult::SuccessMove => {
                self.notice = Notice::Moved;
            },
            ActionResult::Fail(reason) => {
                self.notice = Notice::MoveFailed(reason);
            },
            _ => {},
        }
    }

    /// Asks the engine to attack the unit on the clicked tile with the
    /// selected unit.
    fn do_attack(&mut self, pos: MapPosition)
        requires
            old(self).wf(),
        ensures
            final(self).wf(),
            old(self).spec_selected() is None ==> final(self).spec_world() == old(self).spec_world() && final(self).spec_notice() == Notice::SelectFirst,
    {
        let attacker_id = match self.selected_entity_id {
            Some(id) => id,
            None => {
                self.notice = Notice::SelectFirst;
                return ;
            },
        };
        let target_id = match self.engine.world().get_entity_id_at(pos) {
            Some(id) => id,
            None => {
                self.notice = Notice::NoTargetThere;
                return ;
            },
        };
        match self.engine.attack_entity(attacker_id, target_id) {
            ActionResult::SuccessAttack { damage, target_died } => {
                self.notice = Notice::AttackHit { damage, fatal: target_died };
            },
            ActionResult::Fail(reason) => {
                self.notice = Notice::AttackFailed(reason);
            },
            _ => {},
        }
    }
}

} // verus!
