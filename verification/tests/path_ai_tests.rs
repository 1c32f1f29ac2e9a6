//! Pathfinding structure and the AI decision loop.

use game::{AiSystem, GameEngine, GameMap, MapPosition, Pathfinding, WorldState};

fn open_world(width: i32, height: i32) -> WorldState {
    WorldState {
        map: GameMap::new(width, height),
        entities: Vec::new(),
        next_entity_id: 0,
        current_team_turn: 1,
    }
}

fn adjacent(a: MapPosition, b: MapPosition) -> bool {
    a.manhattan_distance(&b) == 1
}

#[test]
fn path_to_self_is_empty() {
    let map = GameMap::new(5, 5);
    let p = MapPosition::new(2, 2);
    assert_eq!(Pathfinding::find_path(&map, p, p), Some(Vec::new()));
}

#[test]
fn path_steps_are_consecutive_adjacent_walkable_tiles_ending_at_goal() {
    let mut w = open_world(6, 6);
    // a wall bar with a gap forces a detour
    for y in 0..5 {
        assert!(w.build_wall(MapPosition::new(3, y)));
    }
    let start = MapPosition::new(0, 0);
    let goal = MapPosition::new(5, 0);
    let path = Pathfinding::find_path(&w.map, start, goal).expect("goal is reachable");
    assert!(!path.is_empty());
    assert!(adjacent(start, path[0]));
    for i in 0..path.len() - 1 {
        assert!(adjacent(path[i], path[i + 1]));
    }
    assert_eq!(*path.last().unwrap(), goal);
    for step in &path {
        assert!(w.map.is_walkable(*step));
    }
    // the detour around the bar takes at least 10 steps
    assert!(path.len() >= 10);
}

#[test]
fn enclosed_goal_is_unreachable() {
    let mut w = open_world(6, 6);
    for p in [
        MapPosition::new(3, 3),
        MapPosition::new(5, 3),
        MapPosition::new(4, 2),
        MapPosition::new(4, 4),
    ] {
        assert!(w.build_wall(p));
    }
    // (4,3) is boxed in by walls on all four sides ((5,3) wall, border right? use interior)
    assert_eq!(
        Pathfinding::find_path(&w.map, MapPosition::new(0, 0), MapPosition::new(4, 3)),
        None
    );
}

#[test]
fn out_of_bounds_endpoints_have_no_path() {
    let map = GameMap::new(4, 4);
    assert_eq!(
        Pathfinding::find_path(&map, MapPosition::new(0, 0), MapPosition::new(9, 0)),
        None
    );
    assert_eq!(
        Pathfinding::find_path(&map, MapPosition::new(-1, 0), MapPosition::new(2, 2)),
        None
    );
}

#[test]
fn straight_path_has_manhattan_length() {
    let map = GameMap::new(8, 8);
    let path =
        Pathfinding::find_path(&map, MapPosition::new(1, 1), MapPosition::new(4, 1)).unwrap();
    assert_eq!(path.len(), 3);
    assert_eq!(path[0], MapPosition::new(2, 1));
    assert_eq!(path[1], MapPosition::new(3, 1));
    assert_eq!(path[2], MapPosition::new(4, 1));
}

#[test]
fn ai_unit_pursues_and_attacks_the_nearest_enemy() {
    let mut w = open_world(5, 5);
    let prey = w
        .spawn_entity(
            MapPosition::new(0, 0),
            '@',
            String::from("Player"),
            20,
            10,
            2,
            1,
            1,
            false,
        )
        .unwrap();
    let hunter = w
        .spawn_entity(
            MapPosition::new(0, 3),
            'B',
            String::from("Enemy"),
            20,
            10,
            5,
            1,
            2,
            true,
        )
        .unwrap();
    w.current_team_turn = 2;
    let mut eng = GameEngine::new(w);
    let logs = AiSystem::perform_turn(&mut eng, 2);
    // the hunter walked within range and struck once
    assert_eq!(logs.len(), 1);
    assert_eq!(logs[0].attacker, hunter);
    assert_eq!(logs[0].target, prey);
    assert_eq!(eng.world().get_entity(prey).unwrap().health(), 15);
    let hunter_pos = eng.world().get_entity(hunter).unwrap().position();
    assert_eq!(hunter_pos.manhattan_distance(&MapPosition::new(0, 0)), 1);
}

#[test]
fn ai_without_enemies_or_energy_waits() {
    let mut w = open_world(5, 5);
    let lone = w
        .spawn_entity(
            MapPosition::new(2, 2),
            'B',
            String::from("Enemy"),
            20,
            10,
            5,
            1,
            2,
            true,
        )
        .unwrap();
    w.current_team_turn = 2;
    let mut eng = GameEngine::new(w);
    let logs = AiSystem::perform_turn(&mut eng, 2);
    assert!(logs.is_empty());
    assert_eq!(
        eng.world().get_entity(lone).unwrap().position(),
        MapPosition::new(2, 2)
    );
}

#[test]
fn ai_blocked_by_walls_stays_put() {
    let mut w = open_world(7, 3);
    let _prey = w
        .spawn_entity(
            MapPosition::new(0, 1),
            '@',
            String::from("Player"),
            20,
            10,
            2,
            1,
            1,
            false,
        )
        .unwrap();
    let hunter = w
        .spawn_entity(
            MapPosition::new(6, 1),
            'B',
            String::from("Enemy"),
            20,
            10,
            5,
            1,
            2,
            true,
        )
        .unwrap();
    for y in 0..3 {
        assert!(w.build_wall(MapPosition::new(3, y)));
    }
    w.current_team_turn = 2;
    let mut eng = GameEngine::new(w);
    let logs = AiSystem::perform_turn(&mut eng, 2);
    assert!(logs.is_empty());
    assert_eq!(
        eng.world().get_entity(hunter).unwrap().position(),
        MapPosition::new(6, 1)
    );
}
