//! Action resolution: movement cost, combat, turn rotation.

use game::{
    ActionError, ActionResult, GameEngine, GameMap, MapPosition, TurnResult, WorldState,
    ATTACK_COST, MOVE_COST,
};

fn open_world(width: i32, height: i32) -> WorldState {
    WorldState {
        map: GameMap::new(width, height),
        entities: Vec::new(),
        next_entity_id: 0,
        current_team_turn: 1,
    }
}

fn spawn(
    w: &mut WorldState,
    x: i32,
    y: i32,
    hp: u32,
    energy: u32,
    damage: u32,
    range: u32,
    team: u32,
) -> u32 {
    w.spawn_entity(
        MapPosition::new(x, y),
        '@',
        String::from("unit"),
        hp,
        energy,
        damage,
        range,
        team,
        false,
    )
    .expect("spawn failed")
}

#[test]
fn move_costs_manhattan_distance_times_move_cost() {
    let mut w = open_world(5, 5);
    let a = spawn(&mut w, 0, 0, 20, 10, 3, 1, 1);
    let mut eng = GameEngine::new(w);
    let r = eng.move_entity(a, MapPosition::new(2, 1));
    assert_eq!(r, ActionResult::SuccessMove);
    let e = eng.world().get_entity(a).unwrap();
    assert_eq!(e.energy(), 10 - 3 * MOVE_COST);
    assert_eq!(e.position(), MapPosition::new(2, 1));
}

#[test]
fn unaffordable_move_changes_nothing() {
    let mut w = open_world(9, 9);
    let a = spawn(&mut w, 0, 0, 20, 3, 3, 1, 1);
    let mut eng = GameEngine::new(w);
    let r = eng.move_entity(a, MapPosition::new(4, 4));
    assert_eq!(
        r,
        ActionResult::Fail(ActionError::InsufficientEnergy { required: 8, available: 3 })
    );
    let e = eng.world().get_entity(a).unwrap();
    assert_eq!(e.energy(), 3);
    assert_eq!(e.position(), MapPosition::new(0, 0));
}

#[test]
fn move_to_occupied_or_solid_or_outside_is_blocked() {
    let mut w = open_world(5, 5);
    let a = spawn(&mut w, 0, 0, 20, 10, 3, 1, 1);
    let _b = spawn(&mut w, 1, 0, 20, 10, 3, 1, 1);
    assert!(w.build_wall(MapPosition::new(2, 2)));
    let mut eng = GameEngine::new(w);
    for target in [
        MapPosition::new(1, 0),
        MapPosition::new(2, 2),
        MapPosition::new(7, 7),
        MapPosition::new(-1, 0),
    ] {
        assert_eq!(
            eng.move_entity(a, target),
            ActionResult::Fail(ActionError::PositionBlocked)
        );
    }
    assert_eq!(
        eng.world().get_entity(a).unwrap().position(),
        MapPosition::new(0, 0)
    );
}

#[test]
fn moving_updates_tile_occupancy() {
    let mut w = open_world(5, 5);
    let a = spawn(&mut w, 0, 0, 20, 10, 3, 1, 1);
    let mut eng = GameEngine::new(w);
    eng.move_entity(a, MapPosition::new(0, 2));
    assert_eq!(eng.world().get_entity_id_at(MapPosition::new(0, 0)), None);
    assert_eq!(
        eng.world().get_entity_id_at(MapPosition::new(0, 2)),
        Some(a)
    );
}

#[test]
fn moving_consumes_the_powerup_on_the_destination() {
    let mut w = open_world(5, 5);
    let a = spawn(&mut w, 0, 0, 20, 10, 3, 1, 1);
    w.map
        .set_powerup_at(MapPosition::new(0, 1), game::PowerupType::HealingPotion);
    let mut eng = GameEngine::new(w);
    eng.move_entity(a, MapPosition::new(0, 1));
    let tile = eng.world().map.get_tile(MapPosition::new(0, 1)).unwrap();
    assert_eq!(tile.powerup(), game::PowerupType::NoPowerup);
}

#[test]
fn attack_succeeds_iff_within_range_and_costs_flat_energy() {
    let mut w = open_world(9, 9);
    let a = spawn(&mut w, 0, 0, 20, 10, 3, 2, 1);
    let b = spawn(&mut w, 0, 3, 20, 10, 3, 1, 2);
    let mut eng = GameEngine::new(w);
    // distance 3, range 2
    assert_eq!(
        eng.attack_entity(a, b),
        ActionResult::Fail(ActionError::OutOfRange { distance: 3, range: 2 })
    );
    // close the gap to distance 2
    assert_eq!(eng.move_entity(a, MapPosition::new(0, 1)), ActionResult::SuccessMove);
    let before = eng.world().get_entity(a).unwrap().energy();
    let r = eng.attack_entity(a, b);
    assert_eq!(
        r,
        ActionResult::SuccessAttack { damage: 3, target_died: false }
    );
    let after = eng.world().get_entity(a).unwrap().energy();
    assert_eq!(before - after, ATTACK_COST);
    assert_eq!(eng.world().get_entity(b).unwrap().health(), 17);
}

#[test]
fn lethal_damage_saturates_to_zero_and_reports_death() {
    let mut w = open_world(5, 5);
    let a = spawn(&mut w, 0, 0, 20, 10, 50, 3, 1);
    let b = spawn(&mut w, 0, 2, 20, 10, 3, 1, 2);
    let mut eng = GameEngine::new(w);
    let r = eng.attack_entity(a, b);
    assert_eq!(
        r,
        ActionResult::SuccessAttack { damage: 50, target_died: true }
    );
    let victim = eng.world().get_entity(b).unwrap();
    assert_eq!(victim.health(), 0);
    assert!(victim.is_dead());
    // the corpse no longer occupies its tile
    assert_eq!(eng.world().get_entity_id_at(MapPosition::new(0, 2)), None);
}

#[test]
fn dead_entities_cannot_act_or_be_targeted() {
    let mut w = open_world(5, 5);
    let a = spawn(&mut w, 0, 0, 20, 10, 50, 3, 1);
    let b = spawn(&mut w, 0, 2, 20, 10, 3, 1, 2);
    let mut eng = GameEngine::new(w);
    eng.attack_entity(a, b);
    assert_eq!(
        eng.attack_entity(a, b),
        ActionResult::Fail(ActionError::TargetLost)
    );
    // hand the turn to team 2: its only member is dead, so team 1 acts again
    assert_eq!(eng.end_turn(), TurnResult::TurnChanged(1));
}

#[test]
fn self_attack_and_wrong_turn_are_rejected() {
    let mut w = open_world(5, 5);
    let a = spawn(&mut w, 0, 0, 20, 10, 3, 1, 1);
    let b = spawn(&mut w, 0, 1, 20, 10, 3, 1, 2);
    let mut eng = GameEngine::new(w);
    assert_eq!(
        eng.attack_entity(a, a),
        ActionResult::Fail(ActionError::SelfTargetInvalid)
    );
    assert_eq!(
        eng.attack_entity(b, a),
        ActionResult::Fail(ActionError::NotYourTurn)
    );
    assert_eq!(
        eng.move_entity(99, MapPosition::new(1, 1)),
        ActionResult::Fail(ActionError::EntityNotFound)
    );
}

#[test]
fn end_turn_cycles_in_ascending_team_order_and_refills_energy() {
    let mut w = open_world(9, 9);
    let a = spawn(&mut w, 0, 0, 20, 10, 3, 1, 1);
    let _b = spawn(&mut w, 0, 2, 20, 10, 3, 1, 2);
    let _c = spawn(&mut w, 0, 4, 20, 10, 3, 1, 5);
    let mut eng = GameEngine::new(w);
    eng.move_entity(a, MapPosition::new(3, 0));
    assert_eq!(eng.world().get_entity(a).unwrap().energy(), 7);
    assert_eq!(eng.end_turn(), TurnResult::TurnChanged(2));
    assert_eq!(eng.current_team(), 2);
    assert_eq!(eng.end_turn(), TurnResult::TurnChanged(5));
    assert_eq!(eng.end_turn(), TurnResult::TurnChanged(1));
    // back on team 1, energy was refilled to the maximum
    assert_eq!(eng.world().get_entity(a).unwrap().energy(), 10);
}

#[test]
fn end_turn_with_single_team_returns_that_team_repeatedly() {
    let mut w = open_world(5, 5);
    let _a = spawn(&mut w, 0, 0, 20, 10, 3, 1, 4);
    let mut eng = GameEngine::new(w);
    assert_eq!(eng.end_turn(), TurnResult::TurnChanged(4));
    assert_eq!(eng.end_turn(), TurnResult::TurnChanged(4));
    assert_eq!(eng.end_turn(), TurnResult::TurnChanged(4));
}

#[test]
fn end_turn_with_no_living_entity_continues() {
    let w = open_world(5, 5);
    let mut eng = GameEngine::new(w);
    assert_eq!(eng.end_turn(), TurnResult::TurnContinues);
}

#[test]
fn stats_stay_within_bounds_through_a_fight() {
    let mut w = open_world(9, 9);
    let a = spawn(&mut w, 0, 0, 20, 10, 7, 4, 1);
    let b = spawn(&mut w, 0, 3, 9, 10, 3, 1, 2);
    let mut eng = GameEngine::new(w);
    eng.attack_entity(a, b);
    eng.attack_entity(a, b);
    eng.end_turn();
    eng.end_turn();
    for e in &eng.world().entities {
        assert!(e.health() <= e.max_health());
        assert!(e.energy() <= e.max_energy());
    }
}

#[test]
fn five_by_five_scenario_move_then_attack() {
    // 5x5 open map, unit A (team 1, energy 10, range 1) at (0,0),
    // unit B (team 2) at (0,3)
    let mut w = open_world(5, 5);
    let a = spawn(&mut w, 0, 0, 20, 10, 4, 1, 1);
    let b = spawn(&mut w, 0, 3, 20, 10, 3, 1, 2);
    let mut eng = GameEngine::new(w);
    assert_eq!(eng.move_entity(a, MapPosition::new(0, 2)), ActionResult::SuccessMove);
    assert_eq!(eng.world().get_entity(a).unwrap().energy(), 8);
    let r = eng.attack_entity(a, b);
    assert_eq!(
        r,
        ActionResult::SuccessAttack { damage: 4, target_died: false }
    );
    assert_eq!(eng.world().get_entity(a).unwrap().energy(), 6);
    assert_eq!(eng.world().get_entity(b).unwrap().health(), 16);
}

#[test]
fn stun_counts_down_at_turn_start_and_blocks_refill() {
    let mut w = open_world(5, 5);
    let a = spawn(&mut w, 0, 0, 20, 10, 3, 1, 1);
    let _b = spawn(&mut w, 0, 2, 20, 10, 3, 1, 2);
    w.entities[0].stunned_for_turns = 2;
    w.entities[0].energy = 1;
    let mut eng = GameEngine::new(w);
    // a stunned unit cannot act
    assert_eq!(
        eng.move_entity(a, MapPosition::new(1, 0)),
        ActionResult::Fail(ActionError::InsufficientEnergy { required: MOVE_COST, available: 1 })
    );
    // team 2, then back to team 1: stun 2 -> 1, still stunned, no refill
    eng.end_turn();
    assert_eq!(eng.end_turn(), TurnResult::TurnChanged(1));
    assert!(eng.world().get_entity(a).unwrap().is_stunned());
    assert_eq!(eng.world().get_entity(a).unwrap().energy(), 1);
    // one more round: stun 1 -> 0, energy refills with the stun gone
    eng.end_turn();
    assert_eq!(eng.end_turn(), TurnResult::TurnChanged(1));
    assert!(!eng.world().get_entity(a).unwrap().is_stunned());
    assert_eq!(eng.world().get_entity(a).unwrap().energy(), 10);
}
