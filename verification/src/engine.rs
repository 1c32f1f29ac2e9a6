//! Action validation and resolution: the only path through which
//! gameplay intents mutate the world.

use vstd::prelude::*;
use crate::entity::{Entity, EntityID, ATTACK_COST, MOVE_COST};
use crate::position::{spec_manhattan, MapPosition};
use crate::world::WorldState;

verus! {

/// Outcome of a turn rotation.
#[derive(Debug, Clone, Copy, PartialEq, Eq, Structural)]
pub enum TurnResult {
    TurnContinues,
    TurnChanged(u32),
}

/// Why an action was rejected. Every rejection leaves the world as it was.
#[derive(Debug, Clone, Copy, PartialEq, Eq, Structural)]
pub enum ActionError {
    /// The referenced id does not exist, or the entity is dead.
    EntityNotFound,
    /// The actor's team is not the active team.
    NotYourTurn,
    /// The action's cost exceeds the actor's current energy (or the
    /// actor is stunned); reports required versus available energy.
    InsufficientEnergy { required: u32, available: u32 },
    /// The destination is out of bounds, solid or occupied.
    PositionBlocked,
    /// The target sits beyond the attacker's reach.
    OutOfRange { distance: u32, range: u32 },
    /// An attacker may not target itself.
    SelfTargetInvalid,
    /// The target id vanished (or died) before resolution.
    TargetLost,
}

/// Outcome of a move or attack intent.
#[derive(Debug, Clone, Copy, PartialEq, Eq, Structural)]
pub enum ActionResult {
    SuccessMove,
    SuccessAttack { damage: u32, target_died: bool },
    Fail(ActionError),
}

/// The actor validation shared by move and attack: the actor must exist
/// and live, belong to the active team, and be able to act at the base
/// cost of the action.
pub open spec fn spec_validate_actor(w: WorldState, id: EntityID, base_cost: u32) -> Option<
    ActionError,
> {
    if !w.spec_is_live(id) {
        Some(ActionError::EntityNotFound)
    } else if w.spec_entity(id).team != w.current_team_turn {
        Some(ActionError::NotYourTurn)
    } else if !w.spec_entity(id).spec_can_act(base_cost) {
        Some(
            ActionError::InsufficientEnergy {
                required: base_cost,
                available: w.spec_entity(id).energy,
            },
        )
    } else {
        None
    }
}

/// Some living member of `t` stands among the first `k` entities.
pub open spec fn team_active_prefix(w: WorldState, t: u32, k: int) -> bool {
    exists|i: int|
        0 <= i < k && (#[trigger] w.entities@[i]).spec_is_live() && w.entities@[i].team == t
}

/// Team `t` has at least one living member.
pub open spec fn team_active(w: WorldState, t: u32) -> bool {
    team_active_prefix(w, t, w.entities@.len() as int)
}

/// `nt` is the team the turn passes to from `cur`: the least active team
/// above `cur` while the current team is still active and such a team
/// exists, otherwise the least active team overall.
pub open spec fn spec_is_next_team(w: WorldState, cur: u32, nt: u32) -> bool {
    &&& team_active(w, nt)
    &&& if team_active(w, cur) && (exists|t: u32| #[trigger] team_active(w, t) && t > cur) {
        nt > cur && forall|t: u32| #[trigger] team_active(w, t) && t > cur ==> nt <= t
    } else {
        forall|t: u32| #[trigger] team_active(w, t) ==> nt <= t
    }
}

/// The turn rotation cycles strictly among teams with a living member:
/// with exactly one such team, every rotation hands the turn back to it,
/// whatever team held the turn before.
pub proof fn lemma_single_team_next(w: WorldState, cur: u32, t: u32)
    requires
        team_active(w, t),
        forall|u: u32| #[trigger] team_active(w, u) ==> u == t,
    ensures
        forall|nt: u32| #[trigger] spec_is_next_team(w, cur, nt) <==> nt == t,
{
    assert forall|nt: u32| #[trigger] spec_is_next_team(w, cur, nt) <==> nt == t by {
        if spec_is_next_team(w, cur, nt) {
            assert(team_active(w, nt));
        }
        if nt == t {
            if team_active(w, cur) && (exists|u: u32| #[trigger] team_active(w, u) && u > cur) {
                let u = choose|u: u32| #[trigger] team_active(w, u) && u > cur;
                assert(u == t);
                assert(t > cur);
                assert(spec_is_next_team(w, cur, nt));
            } else {
                assert(spec_is_next_team(w, cur, nt));
            }
        }
    }
}

/// Extending a prefix by one entity extends the set of active teams by
/// exactly that entity's team (when it is alive).
proof fn lemma_prefix_extend(w: WorldState, t: u32, k: int)
    requires
        0 <= k < w.entities@.len(),
    ensures
        team_active_prefix(w, t, k + 1) == (team_active_prefix(w, t, k) || (
        w.entities@[k].spec_is_live() && w.entities@[k].team == t)),
{
    if team_active_prefix(w, t, k + 1) {
        let i = choose|i: int|
            0 <= i < k + 1 && (#[trigger] w.entities@[i]).spec_is_live() && w.entities@[i].team
                == t;
        if i < k {
            assert(team_active_prefix(w, t, k));
        }
    }
    if team_active_prefix(w, t, k) {
        let i = choose|i: int|
            0 <= i < k && (#[trigger] w.entities@[i]).spec_is_live() && w.entities@[i].team == t;
        assert(0 <= i < k + 1 && w.entities@[i].spec_is_live() && w.entities@[i].team == t);
    }
    if w.entities@[k].spec_is_live() && w.entities@[k].team == t {
        assert(team_active_prefix(w, t, k + 1));
    }
}

/// Everything a resolved move intent guarantees: rejections (in
/// validation order) leave the world as it was; success deducts the
/// distance-scaled cost, relocates the actor, moves the occupant
/// reference with it and consumes the destination's powerup, touching
/// nothing else.
pub open spec fn spec_move_post(
    pre: WorldState,
    post: WorldState,
    id: EntityID,
    target_pos: MapPosition,
    r: ActionResult,
) -> bool {
    &&& post.wf()
    &&& post.next_entity_id == pre.next_entity_id
    &&& post.current_team_turn == pre.current_team_turn
    &&& (r matches ActionResult::Fail(_) ==> post == pre)
    &&& (spec_validate_actor(pre, id, MOVE_COST) matches Some(e) ==> r == ActionResult::Fail(e))
    &&& (spec_validate_actor(pre, id, MOVE_COST) is None ==> {
        let actor = pre.spec_entity(id);
        let d = spec_manhattan(actor.position, target_pos);
        if !pre.map.spec_is_standable(target_pos) {
            r == ActionResult::Fail(ActionError::PositionBlocked)
        } else if actor.energy < d * MOVE_COST {
            r == ActionResult::Fail(
                ActionError::InsufficientEnergy {
                    required: (d * MOVE_COST) as u32,
                    available: actor.energy,
                },
            )
        } else {
            let k = pre.spec_index_of(id);
            &&& r == ActionResult::SuccessMove
            &&& post.entities@ == pre.entities@.update(
                k,
                Entity {
                    energy: (actor.energy - d * MOVE_COST) as u32,
                    position: target_pos,
                    ..actor
                },
            )
            &&& post.map.tile_at(actor.position) == (crate::tile::Tile {
                entity_id: None,
                ..pre.map.tile_at(actor.position)
            })
            &&& post.map.tile_at(target_pos) == (crate::tile::Tile {
                entity_id: Some(id),
                powerup: crate::tile::PowerupType::NoPowerup,
                ..pre.map.tile_at(target_pos)
            })
            &&& forall|q: MapPosition|
                pre.map.spec_in_bounds(q) && q != actor.position && q != target_pos
                    ==> #[trigger] post.map.tile_at(q) == pre.map.tile_at(q)
        }
    })
}

/// Everything a resolved attack intent guarantees: rejections (in
/// validation order) leave the world as it was; success deducts the flat
/// attack cost, applies saturating damage, and on a kill clears the
/// victim's occupant reference, touching nothing else.
pub open spec fn spec_attack_post(
    pre: WorldState,
    post: WorldState,
    attacker_id: EntityID,
    target_id: EntityID,
    r: ActionResult,
) -> bool {
    &&& post.wf()
    &&& post.next_entity_id == pre.next_entity_id
    &&& post.current_team_turn == pre.current_team_turn
    &&& (r matches ActionResult::Fail(_) ==> post == pre)
    &&& (spec_validate_actor(pre, attacker_id, ATTACK_COST) matches Some(e) ==> r
        == ActionResult::Fail(e))
    &&& (spec_validate_actor(pre, attacker_id, ATTACK_COST) is None ==> {
        let attacker = pre.spec_entity(attacker_id);
        let target = pre.spec_entity(target_id);
        let d = spec_manhattan(attacker.position, target.position);
        if attacker_id == target_id {
            r == ActionResult::Fail(ActionError::SelfTargetInvalid)
        } else if !pre.spec_is_live(target_id) {
            r == ActionResult::Fail(ActionError::TargetLost)
        } else if d > attacker.attack_range {
            r == ActionResult::Fail(
                ActionError::OutOfRange { distance: d as u32, range: attacker.attack_range },
            )
        } else {
            let ak = pre.spec_index_of(attacker_id);
            let tk = pre.spec_index_of(target_id);
            let died = target.health <= attacker.damage;
            let new_health = if target.health >= attacker.damage {
                (target.health - attacker.damage) as u32
            } else {
                0
            };
            &&& r == (ActionResult::SuccessAttack { damage: attacker.damage, target_died: died })
            &&& post.entities@ == pre.entities@.update(
                ak,
                Entity { energy: (attacker.energy - ATTACK_COST) as u32, ..attacker },
            ).update(tk, Entity { health: new_health, ..target })
            &&& (died ==> post.map.tile_at(target.position) == (crate::tile::Tile {
                entity_id: None,
                ..pre.map.tile_at(target.position)
            }))
            &&& (!died ==> post.map == pre.map)
            &&& forall|q: MapPosition|
                pre.map.spec_in_bounds(q) && q != target.position ==> #[trigger] post.map.tile_at(
                    q,
                ) == pre.map.tile_at(q)
        }
    })
}

/// Wraps the [`WorldState`] for the lifetime of a session; rendering and
/// input layers read the world but mutate it only through these methods.
pub struct GameEngine {
    world: WorldState,
}

impl View for GameEngine {
    type V = WorldState;

    closed spec fn view(&self) -> WorldState {
        self.world
    }
}

impl GameEngine {
    pub fn new(world: WorldState) -> (r: Self)
        requires
            world.wf(),
        ensures
            r@ == world,
    {
        GameEngine { world }
    }

    pub fn world(&self) -> (r: &WorldState)
        ensures
            *r == self@,
    {
        &self.world
    }

    pub fn world_mut(&mut self) -> (r: &mut WorldState)
        ensures
            *r == old(self)@,
            final(self)@ == *final(r),
    {
        &mut self.world
    }

    pub fn current_team(&self) -> (r: u32)
        ensures
            r == self@.current_team_turn,
    {
        self.world.current_team_turn
    }

    /// Checks the actor side of an intent; on success hands back the
    /// actor's index in the entity collection.
    fn validate_actor(&self, id: EntityID, base_cost: u32) -> (r: Result<usize, ActionError>)
        requires
            self@.wf(),
        ensures
            r matches Ok(k) ==> {
                &&& spec_validate_actor(self@, id, base_cost) is None
                &&& k < self@.entities@.len()
                &&& self@.spec_index_of(id) == k
                &&& self@.entities@[k as int].id == id
                &&& self@.entities@[k as int].spec_is_live()
                &&& self@.entities@[k as int].team == self@.current_team_turn
                &&& self@.entities@[k as int].spec_can_act(base_cost)
            },
            r matches Err(e) ==> Some(e) == spec_validate_actor(self@, id, base_cost),
    {
        let k = match self.world.find_entity_index(id) {
            Some(k) => k,
            None => {
                return Err(ActionError::EntityNotFound);
            },
        };
        proof {
            self.world.lemma_index_unique(id, k as int);
        }
        let ent = &self.world.entities[k];
        if ent.is_dead() {
            return Err(ActionError::EntityNotFound);
        }
        if ent.team() != self.world.current_team_turn {
            return Err(ActionError::NotYourTurn);
        }
        if !ent.can_act(base_cost) {
            return Err(
                ActionError::InsufficientEnergy { required: base_cost, available: ent.energy() },
            );
        }
        Ok(k)
    }

    /// Resolves a move intent: validates the actor, the destination and
    /// the distance-scaled energy cost, then commits the relocation and
    /// consumes any powerup waiting on the destination tile. Rejections
    /// leave the world untouched.
    pub fn move_entity(&mut self, id: EntityID, target_pos: MapPosition) -> (r: ActionResult)
        requires
            old(self)@.wf(),
        ensures
            spec_move_post(old(self)@, final(self)@, id, target_pos, r),
    {
        let k = match self.validate_actor(id, MOVE_COST) {
            Ok(k) => k,
            Err(e) => {
                return ActionResult::Fail(e);
            },
        };
        if !self.world.map.is_standable(target_pos) {
            return ActionResult::Fail(ActionError::PositionBlocked);
        }
        proof {
            assert(self.world.wf_entity_at(k as int));
        }
        let old_pos = self.world.entities[k].position();
        let dist = old_pos.manhattan_distance(&target_pos);
        let cost = dist * MOVE_COST;
        let can_afford = self.world.entities[k].can_act(cost);
        if !can_afford {
            let available = self.world.entities[k].energy();
            return ActionResult::Fail(
                ActionError::InsufficientEnergy { required: cost, available },
            );
        }
        let ghost oldw = self.world;
        self.world.consume_energy_of(k, cost);
        self.world.relocate_entity(k, target_pos);
        proof {
            assert(final(self)@.entities@ =~= oldw.entities@.update(
                k as int,
                Entity {
                    energy: (oldw.entities@[k as int].energy - cost) as u32,
                    position: target_pos,
                    ..oldw.entities@[k as int]
                },
            ));
        }
        ActionResult::SuccessMove
    }

    /// Resolves an attack intent: validates the actor, rejects
    /// self-targeting, looks up a living target and checks range, then
    /// deducts the flat attack cost and applies saturating damage. A
    /// target brought to zero health dies and leaves its tile.
    pub fn attack_entity(&mut self, attacker_id: EntityID, target_id: EntityID) -> (r:
        ActionResult)
        requires
            old(self)@.wf(),
        ensures
            spec_attack_post(old(self)@, final(self)@, attacker_id, target_id, r),
    {
        let ak = match self.validate_actor(attacker_id, ATTACK_COST) {
            Ok(k) => k,
            Err(e) => {
                return ActionResult::Fail(e);
            },
        };
        if attacker_id == target_id {
            return ActionResult::Fail(ActionError::SelfTargetInvalid);
        }
        let tk = match self.world.find_entity_index(target_id) {
            Some(tk) => tk,
            None => {
                return ActionResult::Fail(ActionError::TargetLost);
            },
        };
        proof {
            self.world.lemma_index_unique(target_id, tk as int);
        }
        if self.world.entities[tk].is_dead() {
            return ActionResult::Fail(ActionError::TargetLost);
        }
        proof {
            assert(self.world.wf_entity_at(ak as int));
            assert(self.world.wf_entity_at(tk as int));
        }
        let damage = self.world.entities[ak].damage();
        let range = self.world.entities[ak].attack_range();
        let attacker_pos = self.world.entities[ak].position();
        let target_pos = self.world.entities[tk].position();
        let dist = attacker_pos.manhattan_distance(&target_pos);
        if dist > range {
            return ActionResult::Fail(ActionError::OutOfRange { distance: dist, range });
        }
        self.world.consume_energy_of(ak, ATTACK_COST);
        let target_died = self.world.damage_entity_at(tk, damage);
        ActionResult::SuccessAttack { damage, target_died }
    }

    /// Rotates the turn to the next team with a living member, in
    /// ascending cyclic team order, and refreshes that team's members
    /// (stun countdown, energy refill). With no active team at all the
    /// turn simply continues.
    pub fn end_turn(&mut self) -> (r: TurnResult)
        requires
            old(self)@.wf(),
        ensures
            final(self)@.wf(),
            final(self)@.next_entity_id == old(self)@.next_entity_id,
            r is TurnContinues ==> final(self)@ == old(self)@ && (forall|t: u32|
                !team_active(old(self)@, t)),
            r matches TurnResult::TurnChanged(nt) ==> {
                &&& spec_is_next_team(old(self)@, old(self)@.current_team_turn, nt)
                &&& final(self)@.current_team_turn == nt
                &&& final(self)@.map == old(self)@.map
                &&& final(self)@.entities@.len() == old(self)@.entities@.len()
                &&& forall|i: int|
                    0 <= i < old(self)@.entities@.len() ==> #[trigger] final(self)@.entities@[i]
                        == WorldState::spec_refreshed(old(self)@.entities@[i], nt)
            },
    {
        let cur = self.world.current_team_turn;
        let n = self.world.entities.len();
        let mut min_gt: Option<u32> = None;
        let mut min_all: Option<u32> = None;
        let mut cur_active = false;
        let mut k: usize = 0;
        while k < n
            invariant
                k <= n,
                n == self.world.entities@.len(),
                self@.wf(),
                cur == self.world.current_team_turn,
                cur_active == team_active_prefix(self@, cur, k as int),
                min_all matches Some(m) ==> team_active_prefix(self@, m, k as int) && (forall|
                    t: u32,
                |
                    #[trigger] team_active_prefix(self@, t, k as int) ==> m <= t),
                min_all is None ==> (forall|t: u32| !team_active_prefix(self@, t, k as int)),
                min_gt matches Some(m) ==> m > cur && team_active_prefix(self@, m, k as int) && (
                forall|t: u32|
                    #[trigger] team_active_prefix(self@, t, k as int) && t > cur ==> m <= t),
                min_gt is None ==> (forall|t: u32|
                    #[trigger] team_active_prefix(self@, t, k as int) ==> t <= cur),
            decreases n - k,
        {
            let alive = !self.world.entities[k].is_dead();
            if alive {
                let t = self.world.entities[k].team();
                if t == cur {
                    cur_active = true;
                }
                if t > cur {
                    min_gt = match min_gt {
                        Some(m) => if t < m {
                            Some(t)
                        } else {
                            Some(m)
                        },
                        None => Some(t),
                    };
                }
                min_all = match min_all {
                    Some(m) => if t < m {
                        Some(t)
                    } else {
                        Some(m)
                    },
                    None => Some(t),
                };
            }
            proof {
                let w = self@;
                let ki = k as int;
                assert forall|t: u32|
                    #[trigger] team_active_prefix(w, t, ki + 1) == (team_active_prefix(w, t, ki)
                        || (w.entities@[ki].spec_is_live() && w.entities@[ki].team == t)) by {
                    lemma_prefix_extend(w, t, ki);
                }
            }
            k = k + 1;
        }
        let next = if cur_active && min_gt.is_some() {
            min_gt
        } else {
            min_all
        };
        match next {
            None => TurnResult::TurnContinues,
            Some(nt) => {
                self.world.set_current_team(nt);
                self.world.refresh_team(nt);
                TurnResult::TurnChanged(nt)
            },
        }
    }
}

} // verus!
