//! The pursuit-and-attack decision loop for AI-controlled teams.

use vstd::prelude::*;
use crate::engine::{ActionResult, GameEngine};
use crate::entity::{Entity, EntityID, MOVE_COST};
use crate::position::{spec_manhattan, MapPosition};
use crate::pathfinding::Pathfinding;
use crate::world::WorldState;

verus! {

/// What a unit chose to do on one step of its activation.
#[derive(Debug, Clone, Copy, PartialEq, Eq, Structural)]
pub enum AiDecision {
    Attack(EntityID),
    Move(MapPosition),
    Wait,
}

/// An attack carried out during an AI activation, for the log.
#[derive(Debug, Clone, Copy, PartialEq, Eq, Structural)]
pub struct AiEvent {
    pub attacker: EntityID,
    pub target: EntityID,
}

/// The maximum number of decision steps one unit takes per activation;
/// guarantees termination under any world configuration.
pub const AI_STEP_LIMIT: u32 = 20;

/// Entity `j` is a living enemy of the entity at index `i`.
pub open spec fn is_enemy_of(w: WorldState, i: int, j: int) -> bool {
    &&& 0 <= j < w.entities@.len()
    &&& w.entities@[j].spec_is_live()
    &&& w.entities@[j].team != w.entities@[i].team
}

/// Entity `j` is the enemy an entity at index `i` engages: the first, in
/// collection order, among the living enemies at minimal Manhattan
/// distance from `i`.
pub open spec fn is_first_nearest_enemy(w: WorldState, i: int, j: int) -> bool {
    let here = w.entities@[i].position;
    &&& is_enemy_of(w, i, j)
    &&& forall|l: int|
        #![trigger w.entities@[l]]
        is_enemy_of(w, i, l) ==> spec_manhattan(here, w.entities@[j].position) <= spec_manhattan(
            here,
            w.entities@[l].position,
        )
    &&& forall|l: int|
        #![trigger w.entities@[l]]
        is_enemy_of(w, i, l) && l < j ==> spec_manhattan(here, w.entities@[j].position)
            < spec_manhattan(here, w.entities@[l].position)
}

/// The ids of the living, AI-controlled members of `team`, in
/// collection order.
pub open spec fn ai_roster(es: Seq<Entity>, team: u32) -> Seq<EntityID>
    decreases es.len(),
{
    if es.len() == 0 {
        Seq::empty()
    } else {
        ai_roster(es.drop_last(), team) + (if es.last().spec_is_live() && es.last().team == team
            && es.last().is_ai {
            seq![es.last().id]
        } else {
            Seq::empty()
        })
    }
}

/// Everything one unit's activation guarantees: a unit that cannot act,
/// or that sees no living enemy, changes nothing; a unit whose first
/// nearest enemy is in range attacks it once, exactly as
/// [`GameEngine::attack_entity`] resolves it, and logs that attack;
/// and whatever happens, the invariant, the turn owner, the id counter
/// and the entity count are kept, and at most one attack by this unit
/// is logged.
pub open spec fn spec_activation_post(
    pre: WorldState,
    post: WorldState,
    id: EntityID,
    logs: Seq<AiEvent>,
) -> bool {
    &&& post.wf()
    &&& post.current_team_turn == pre.current_team_turn
    &&& post.next_entity_id == pre.next_entity_id
    &&& post.entities@.len() == pre.entities@.len()
    &&& logs.len() <= 1
    &&& (forall|l: int| 0 <= l < logs.len() ==> (#[trigger] logs[l]).attacker == id)
    &&& (!(pre.spec_is_live(id) && pre.spec_entity(id).spec_can_act(MOVE_COST)) ==> post == pre
        && logs.len() == 0)
    &&& ((pre.spec_is_live(id) && pre.spec_entity(id).spec_can_act(MOVE_COST) && (forall|l: int|
        #![trigger pre.entities@[l]]
        !is_enemy_of(pre, pre.spec_index_of(id), l))) ==> post == pre && logs.len() == 0)
    &&& ((pre.spec_is_live(id) && pre.spec_entity(id).spec_can_act(MOVE_COST)) ==> (forall|j: int|
        #![trigger pre.entities@[j]]
        is_first_nearest_enemy(pre, pre.spec_index_of(id), j) && spec_manhattan(
            pre.spec_entity(id).position,
            pre.entities@[j].position,
        ) <= pre.spec_entity(id).attack_range ==> logs =~= seq![
            AiEvent { attacker: id, target: pre.entities@[j].id },
        ] && (exists|rr: ActionResult|
            crate::engine::spec_attack_post(pre, post, id, pre.entities@[j].id, rr))))
}

/// The entity carrying `id` is a living, AI-controlled member of `team`.
pub open spec fn is_team_ai_member(w: WorldState, team: u32, id: EntityID) -> bool {
    exists|i: int|
        0 <= i < w.entities@.len() && (#[trigger] w.entities@[i]).id == id && w.entities@[i].team
            == team && w.entities@[i].is_ai && w.entities@[i].spec_is_live()
}

/// The first nearest living enemy is unique.
proof fn lemma_first_nearest_unique(w: WorldState, i: int, j1: int, j2: int)
    requires
        is_first_nearest_enemy(w, i, j1),
        is_first_nearest_enemy(w, i, j2),
    ensures
        j1 == j2,
{
    let here = w.entities@[i].position;
    assert(w.entities@[j1] == w.entities@[j1]);
    assert(w.entities@[j2] == w.entities@[j2]);
    if j1 < j2 {
        assert(spec_manhattan(here, w.entities@[j2].position) < spec_manhattan(
            here,
            w.entities@[j1].position,
        ));
        assert(spec_manhattan(here, w.entities@[j1].position) <= spec_manhattan(
            here,
            w.entities@[j2].position,
        ));
    }
    if j2 < j1 {
        assert(spec_manhattan(here, w.entities@[j1].position) < spec_manhattan(
            here,
            w.entities@[j2].position,
        ));
        assert(spec_manhattan(here, w.entities@[j2].position) <= spec_manhattan(
            here,
            w.entities@[j1].position,
        ));
    }
}

pub struct AiSystem;

impl AiSystem {
    /// Finds the first nearest living enemy of the living entity at
    /// index `i`, if any enemy is alive.
    fn find_nearest_enemy(world: &WorldState, i: usize) -> (r: Option<usize>)
        requires
            world.wf(),
            i < world.entities@.len(),
            world.entities@[i as int].spec_is_live(),
        ensures
            r matches Some(j) ==> j < world.entities@.len() && is_first_nearest_enemy(
                *world,
                i as int,
                j as int,
            ),
            r is None ==> forall|l: int|
                #![trigger world.entities@[l]]
                !is_enemy_of(*world, i as int, l),
    {
        proof {
            assert(world.wf_entity_at(i as int));
        }
        let here = world.entities[i].position();
        let n = world.entities.len();
        let mut best: Option<usize> = None;
        let mut best_dist: u32 = 0;
        let mut k: usize = 0;
        while k < n
            invariant
                world.wf(),
                n == world.entities@.len(),
                i < n,
                world.entities@[i as int].spec_is_live(),
                here == world.entities@[i as int].position,
                best is None ==> forall|l: int|
                    #![trigger world.entities@[l]]
                    0 <= l < k ==> !is_enemy_of(*world, i as int, l),
                best matches Some(j) ==> {
                    &&& j < k <= n
                    &&& is_enemy_of(*world, i as int, j as int)
                    &&& best_dist == spec_manhattan(here, world.entities@[j as int].position)
                    &&& forall|l: int|
                        #![trigger world.entities@[l]]
                        0 <= l < k && is_enemy_of(*world, i as int, l) ==> best_dist
                            <= spec_manhattan(here, world.entities@[l].position)
                    &&& forall|l: int|
                        #![trigger world.entities@[l]]
                        0 <= l < k && is_enemy_of(*world, i as int, l) && l < j ==> best_dist
                            < spec_manhattan(here, world.entities@[l].position)
                },
            decreases n - k,
        {
            let e = &world.entities[k];
            if !e.is_dead() && e.team() != world.entities[i].team() {
                proof {
                    assert(world.wf_entity_at(k as int));
                    assert(world.wf_entity_at(i as int));
                }
                let d = here.manhattan_distance(&e.position());
                match best {
                    None => {
                        best = Some(k);
                        best_dist = d;
                    },
                    Some(_) => {
                        if d < best_dist {
                            best = Some(k);
                            best_dist = d;
                        }
                    },
                }
            }
            k = k + 1;
        }
        best
    }

    /// Derives the next decision for the unit from the current world:
    /// wait when it cannot act or no enemy lives; attack the first
    /// nearest enemy when it is in range; otherwise step along a
    /// breadth-first path towards it when the first step is standable.
    fn decide_next_action(engine: &GameEngine, entity_id: EntityID) -> (r: AiDecision)
        requires
            engine@.wf(),
        ensures
            !(engine@.spec_is_live(entity_id) && engine@.spec_entity(entity_id).spec_can_act(
                MOVE_COST,
            )) ==> r == AiDecision::Wait,
            (engine@.spec_is_live(entity_id) && engine@.spec_entity(entity_id).spec_can_act(
                MOVE_COST,
            )) ==> {
                let w = engine@;
                let i = w.spec_index_of(entity_id);
                let me = w.entities@[i];
                &&& ((forall|l: int| #![trigger w.entities@[l]] !is_enemy_of(w, i, l)) ==> r
                    == AiDecision::Wait)
                &&& (r matches AiDecision::Attack(tid) ==> exists|j: int|
                    is_first_nearest_enemy(w, i, j) && (#[trigger] w.entities@[j]).id == tid
                        && spec_manhattan(me.position, w.entities@[j].position)
                        <= me.attack_range)
                &&& (forall|j: int|
                    #![trigger w.entities@[j]]
                    is_first_nearest_enemy(w, i, j) && spec_manhattan(
                        me.position,
                        w.entities@[j].position,
                    ) <= me.attack_range ==> r == AiDecision::Attack(w.entities@[j].id))
                &&& (r matches AiDecision::Move(step) ==> w.map.spec_is_standable(step)
                    && spec_manhattan(me.position, step) == 1 && (exists|j: int|
                    is_first_nearest_enemy(w, i, j) && spec_manhattan(
                        me.position,
                        (#[trigger] w.entities@[j]).position,
                    ) > me.attack_range))
            },
    {
        let world = engine.world();
        let i = match world.find_entity_index(entity_id) {
            Some(i) => i,
            None => {
                return AiDecision::Wait;
            },
        };
        proof {
            world.lemma_index_unique(entity_id, i as int);
        }
        if world.entities[i].is_dead() {
            return AiDecision::Wait;
        }
        if !world.entities[i].can_act(MOVE_COST) {
            return AiDecision::Wait;
        }
        let my_pos = world.entities[i].position();
        let my_range = world.entities[i].attack_range();
        let j = match Self::find_nearest_enemy(world, i) {
            Some(j) => j,
            None => {
                return AiDecision::Wait;
            },
        };
        proof {
            assert(world.wf_entity_at(i as int));
            assert(world.wf_entity_at(j as int));
        }
        let target_pos = world.entities[j].position();
        let dist = my_pos.manhattan_distance(&target_pos);
        proof {
            // the engaged enemy is the unique first nearest one
            assert forall|l: int|
                #![trigger world.entities@[l]]
                is_first_nearest_enemy(*world, i as int, l) implies l == j as int by {
                lemma_first_nearest_unique(*world, i as int, l, j as int);
            }
        }
        if dist <= my_range {
            return AiDecision::Attack(world.entities[j].id());
        }
        if let Some(path) = Pathfinding::find_path(&world.map, my_pos, target_pos) {
            if path.len() > 0 {
                let next_step = path[0];
                if world.map.is_standable(next_step) {
                    return AiDecision::Move(next_step);
                }
            }
        }
        AiDecision::Wait
    }

    /// Runs one unit's activation. A unit that cannot act, or that sees
    /// no living enemy, does nothing. A unit whose first nearest enemy
    /// stands within attack range attacks it once, exactly as
    /// [`GameEngine::attack_entity`] resolves it, and logs the attack.
    /// Otherwise it steps towards that enemy for up to
    /// [`AI_STEP_LIMIT`] decisions, stopping on the first completed
    /// attack, failed move, or wait.
    #[verifier::loop_isolation(false)]
    fn process_entity_loop(engine: &mut GameEngine, entity_id: EntityID) -> (logs: Vec<AiEvent>)
        requires
            old(engine)@.wf(),
        ensures
            spec_activation_post(old(engine)@, final(engine)@, entity_id, logs@),
    {
        let mut logs: Vec<AiEvent> = Vec::new();
        let first = Self::decide_next_action(engine, entity_id);
        match first {
            AiDecision::Attack(target_id) => {
                logs.push(AiEvent { attacker: entity_id, target: target_id });
                let _outcome = engine.attack_entity(entity_id, target_id);
                return logs;
            },
            AiDecision::Wait => {
                return logs;
            },
            AiDecision::Move(pos) => {
                let outcome = engine.move_entity(entity_id, pos);
                if let ActionResult::Fail(_) = outcome {
                    return logs;
                }
            },
        }
        // the unit stepped once; keep closing in, up to the bound
        let mut step: u32 = 1;
        while step < AI_STEP_LIMIT
            invariant
                engine@.wf(),
                engine@.current_team_turn == old(engine)@.current_team_turn,
                engine@.next_entity_id == old(engine)@.next_entity_id,
                engine@.entities@.len() == old(engine)@.entities@.len(),
                logs@.len() == 0,
            decreases AI_STEP_LIMIT - step,
        {
            let decision = Self::decide_next_action(engine, entity_id);
            match decision {
                AiDecision::Attack(target_id) => {
                    logs.push(AiEvent { attacker: entity_id, target: target_id });
                    engine.attack_entity(entity_id, target_id);
                    return logs;
                },
                AiDecision::Move(pos) => {
                    let outcome = engine.move_entity(entity_id, pos);
                    if let ActionResult::Fail(_) = outcome {
                        return logs;
                    }
                },
                AiDecision::Wait => {
                    return logs;
                },
            }
            step = step + 1;
        }
        logs
    }

    /// Acts out the turn of every living, AI-flagged unit of `team_id`,
    /// in collection order, each for one bounded activation. The set of
    /// acting units is snapshotted up front: units spawned or killed
    /// mid-cycle do not join the pass. The whole pass is a chain of
    /// per-unit activations: a sequence of intermediate worlds, one
    /// [`spec_activation_post`] step per snapshotted unit, whose logs
    /// concatenate to the returned log.
    #[verifier::loop_isolation(false)]
    pub fn perform_turn(engine: &mut GameEngine, team_id: u32) -> (logs: Vec<AiEvent>)
        requires
            old(engine)@.wf(),
        ensures
            final(engine)@.wf(),
            final(engine)@.current_team_turn == old(engine)@.current_team_turn,
            final(engine)@.next_entity_id == old(engine)@.next_entity_id,
            final(engine)@.entities@.len() == old(engine)@.entities@.len(),
            forall|l: int|
                0 <= l < logs@.len() ==> is_team_ai_member(
                    old(engine)@,
                    team_id,
                    (#[trigger] logs@[l]).attacker,
                ),
            exists|ws: Seq<WorldState>, ls: Seq<Seq<AiEvent>>|
                #![trigger ws.len(), ls.len()]
                {
                    let roster = ai_roster(old(engine)@.entities@, team_id);
                    &&& ws.len() == roster.len() + 1
                    &&& ls.len() == roster.len()
                    &&& ws[0] == old(engine)@
                    &&& ws[ws.len() - 1] == final(engine)@
                    &&& (forall|k: int|
                        0 <= k < roster.len() ==> #[trigger] spec_activation_post(
                            ws[k],
                            ws[k + 1],
                            roster[k],
                            ls[k],
                        ))
                    &&& logs@ == ls.flatten_alt()
                },
    {
        let mut ai_ids: Vec<EntityID> = Vec::new();
        let n = engine.world().entities.len();
        let mut k: usize = 0;
        while k < n
            invariant
                k <= n,
                n == engine@.entities@.len(),
                engine@ == old(engine)@,
                ai_ids@ == ai_roster(engine@.entities@.subrange(0, k as int), team_id),
                forall|a: int|
                    0 <= a < ai_ids@.len() ==> is_team_ai_member(
                        old(engine)@,
                        team_id,
                        #[trigger] ai_ids@[a],
                    ),
            decreases n - k,
        {
            proof {
                assert(engine@.entities@.subrange(0, k + 1 as int).drop_last()
                    =~= engine@.entities@.subrange(0, k as int));
                assert(engine@.entities@.subrange(0, k + 1 as int).last()
                    == engine@.entities@[k as int]);
            }
            let e = &engine.world().entities[k];
            if e.team() == team_id && e.is_ai() && !e.is_dead() {
                let id = e.id();
                ai_ids.push(id);
            }
            k = k + 1;
        }
        proof {
            assert(engine@.entities@.subrange(0, n as int) =~= engine@.entities@);
        }
        let mut logs: Vec<AiEvent> = Vec::new();
        let ghost mut ws: Seq<WorldState> = seq![engine@];
        let ghost mut ls: Seq<Seq<AiEvent>> = Seq::empty();
        let m = ai_ids.len();
        let mut a: usize = 0;
        while a < m
            invariant
                a <= m,
                engine@.wf(),
                engine@.current_team_turn == old(engine)@.current_team_turn,
                engine@.next_entity_id == old(engine)@.next_entity_id,
                engine@.entities@.len() == old(engine)@.entities@.len(),
                ws.len() == a + 1,
                ls.len() == a as int,
                ws[0] == old(engine)@,
                ws[ws.len() - 1] == engine@,
                forall|kk: int|
                    0 <= kk < a ==> #[trigger] spec_activation_post(
                        ws[kk],
                        ws[kk + 1],
                        ai_ids@[kk],
                        ls[kk],
                    ),
                logs@ == ls.flatten_alt(),
                forall|l: int|
                    0 <= l < logs@.len() ==> is_team_ai_member(
                        old(engine)@,
                        team_id,
                        (#[trigger] logs@[l]).attacker,
                    ),
            decreases m - a,
        {
            let mut unit_logs = Self::process_entity_loop(engine, ai_ids[a]);
            let ghost ul = unit_logs@;
            logs.append(&mut unit_logs);
            proof {
                let ghost old_ls = ls;
                ws = ws.push(engine@);
                ls = ls.push(ul);
                assert(ls.drop_last() =~= old_ls);
                assert(ls.last() == ul);
                assert(logs@ == ls.flatten_alt());
            }
            a = a + 1;
        }
        proof {
            let roster = ai_roster(old(engine)@.entities@, team_id);
            assert(ai_ids@ == roster);
            assert(ws.len() == roster.len() + 1);
            assert(ls.len() == roster.len());
            assert(ws[0] == old(engine)@ && ws[ws.len() - 1] == engine@);
            assert forall|k: int| 0 <= k < roster.len() implies #[trigger] spec_activation_post(
                ws[k],
                ws[k + 1],
                roster[k],
                ls[k],
            ) by {
                assert(roster[k] == ai_ids@[k]);
            }
            assert(logs@ == ls.flatten_alt());
        }
        logs
    }
}

} // verus!
