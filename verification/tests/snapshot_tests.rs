//! Persistence: the snapshot codec round-trips the whole world.

use game::{world_from_snapshot, GameMap, MapPosition, PowerupType, TileType, WorldState};

fn open_world(width: i32, height: i32) -> WorldState {
    WorldState {
        map: GameMap::new(width, height),
        entities: Vec::new(),
        next_entity_id: 0,
        current_team_turn: 1,
    }
}

#[test]
fn save_then_load_reproduces_tiles_occupants_and_stat_blocks() {
    // a world with 3 entities and 2 walls
    let mut w = open_world(6, 4);
    let a = w
        .spawn_entity(MapPosition::new(0, 0), '@', String::from("Player"), 30, 12, 4, 2, 1, false)
        .unwrap();
    let b = w
        .spawn_entity(MapPosition::new(5, 3), 'B', String::from("Enemy"), 25, 9, 3, 1, 2, true)
        .unwrap();
    let c = w
        .spawn_entity(MapPosition::new(2, 2), 'C', String::from("Enemy"), 18, 7, 6, 4, 3, true)
        .unwrap();
    assert!(w.build_wall(MapPosition::new(1, 1)));
    assert!(w.build_wall(MapPosition::new(4, 2)));
    w.map.set_powerup_at(MapPosition::new(3, 3), PowerupType::WallBreaker);
    w.current_team_turn = 2;

    let words = w.to_snapshot();
    let loaded = world_from_snapshot(&words).expect("snapshot must load");

    assert_eq!(loaded.map.width(), 6);
    assert_eq!(loaded.map.height(), 4);
    for y in 0..4 {
        for x in 0..6 {
            let p = MapPosition::new(x, y);
            let t0 = w.map.get_tile(p).unwrap();
            let t1 = loaded.map.get_tile(p).unwrap();
            assert_eq!(t0.tile_type(), t1.tile_type());
            assert_eq!(t0.entity_id(), t1.entity_id());
            assert_eq!(t0.powerup(), t1.powerup());
            assert_eq!(t0.symbol(), t1.symbol());
        }
    }
    assert_eq!(
        loaded.map.get_tile(MapPosition::new(1, 1)).unwrap().tile_type(),
        TileType::Wall
    );
    assert_eq!(loaded.entities.len(), 3);
    for id in [a, b, c] {
        let e0 = w.get_entity(id).unwrap();
        let e1 = loaded.get_entity(id).unwrap();
        assert_eq!(e0.id(), e1.id());
        assert_eq!(e0.team(), e1.team());
        assert_eq!(e0.display_name(), e1.display_name());
        assert_eq!(e0.symbol(), e1.symbol());
        assert_eq!(e0.max_health(), e1.max_health());
        assert_eq!(e0.health(), e1.health());
        assert_eq!(e0.max_energy(), e1.max_energy());
        assert_eq!(e0.energy(), e1.energy());
        assert_eq!(e0.damage(), e1.damage());
        assert_eq!(e0.attack_range(), e1.attack_range());
        assert_eq!(e0.position(), e1.position());
        assert_eq!(e0.is_ai(), e1.is_ai());
        assert_eq!(e0.is_stunned(), e1.is_stunned());
    }
    assert_eq!(loaded.next_entity_id, w.next_entity_id);
    assert_eq!(loaded.current_team_turn, 2);
    assert!(loaded.check_wf());
}

#[test]
fn tombstoned_dead_entities_round_trip_too() {
    let mut w = open_world(4, 4);
    let a = w
        .spawn_entity(MapPosition::new(0, 0), '@', String::from("Player"), 30, 12, 40, 3, 1, false)
        .unwrap();
    let b = w
        .spawn_entity(MapPosition::new(0, 2), 'B', String::from("Enemy"), 10, 9, 3, 1, 2, true)
        .unwrap();
    let mut eng = game::GameEngine::new(w);
    eng.attack_entity(a, b);
    let w = eng.world();
    let words = w.to_snapshot();
    let loaded = world_from_snapshot(&words).expect("snapshot must load");
    let corpse = loaded.get_entity(b).unwrap();
    assert!(corpse.is_dead());
    assert_eq!(loaded.get_entity_id_at(MapPosition::new(0, 2)), None);
}

#[test]
fn malformed_snapshots_are_rejected() {
    // empty stream
    assert!(world_from_snapshot(&Vec::new()).is_none());
    // truncated stream
    let mut w = open_world(3, 3);
    let _ = w.spawn_entity(
        MapPosition::new(1, 1),
        '@',
        String::from("Player"),
        5,
        5,
        1,
        1,
        1,
        false,
    );
    let mut words = w.to_snapshot();
    words.pop();
    assert!(world_from_snapshot(&words).is_none());
    // trailing junk
    let mut words2 = w.to_snapshot();
    words2.push(7);
    assert!(world_from_snapshot(&words2).is_none());
}

#[test]
fn inconsistent_occupancy_is_rejected_on_load() {
    let mut w = open_world(3, 3);
    let _ = w.spawn_entity(
        MapPosition::new(1, 1),
        '@',
        String::from("Player"),
        5,
        5,
        1,
        1,
        1,
        false,
    );
    let words = w.to_snapshot();
    // the snapshot of an empty 1x1 world claims an occupant that is absent
    // from the entity list: header + one tile referencing id 9 + counts
    let bad: Vec<u32> = vec![
        words[0] - 2, // width 1
        words[1] - 2, // height 1
        0,            // walkable
        '.' as u32,
        1,
        9, // occupant id 9
        0, // no powerup
        0, // no entities
        10,
        1,
    ];
    assert!(world_from_snapshot(&bad).is_none());
}
