//! World model: occupancy consistency, building, eviction.

use game::{GameMap, MapPosition, PowerupType, TileType, WorldState};

fn open_world(width: i32, height: i32) -> WorldState {
    WorldState {
        map: GameMap::new(width, height),
        entities: Vec::new(),
        next_entity_id: 0,
        current_team_turn: 1,
    }
}

fn spawn(w: &mut WorldState, x: i32, y: i32) -> u32 {
    w.spawn_entity(
        MapPosition::new(x, y),
        'u',
        String::from("unit"),
        10,
        10,
        2,
        1,
        1,
        false,
    )
    .expect("spawn failed")
}

#[test]
fn spawned_entity_is_recorded_on_its_tile() {
    let mut w = open_world(4, 4);
    let id = spawn(&mut w, 2, 1);
    assert_eq!(w.get_entity_id_at(MapPosition::new(2, 1)), Some(id));
    let e = w.get_entity(id).unwrap();
    assert_eq!(e.position(), MapPosition::new(2, 1));
    assert_eq!(e.health(), e.max_health());
    assert_eq!(e.energy(), e.max_energy());
}

#[test]
fn spawning_on_an_occupied_or_solid_tile_fails() {
    let mut w = open_world(4, 4);
    let _ = spawn(&mut w, 2, 1);
    assert!(w
        .spawn_entity(
            MapPosition::new(2, 1),
            'v',
            String::from("late"),
            5,
            5,
            1,
            1,
            2,
            false
        )
        .is_none());
    w.build_wall(MapPosition::new(0, 0));
    assert!(w
        .spawn_entity(
            MapPosition::new(0, 0),
            'v',
            String::from("late"),
            5,
            5,
            1,
            1,
            2,
            false
        )
        .is_none());
}

#[test]
fn ids_are_assigned_monotonically_and_never_reused() {
    let mut w = open_world(4, 4);
    let a = spawn(&mut w, 0, 0);
    let b = spawn(&mut w, 1, 0);
    w.build_wall(MapPosition::new(1, 0));  // evicts b
    let c = spawn(&mut w, 2, 0);
    assert_eq!(a, 0);
    assert_eq!(b, 1);
    assert_eq!(c, 2);
}

#[test]
fn building_a_wall_evicts_the_occupant() {
    // building a wall on an occupied tile removes that entity from
    // queries by id and by position, and the tile becomes solid
    let mut w = open_world(4, 4);
    let id = spawn(&mut w, 1, 1);
    assert!(w.build_wall(MapPosition::new(1, 1)));
    assert!(w.get_entity(id).is_none());
    assert_eq!(w.get_entity_id_at(MapPosition::new(1, 1)), None);
    let tile = w.map.get_tile(MapPosition::new(1, 1)).unwrap();
    assert_eq!(tile.tile_type(), TileType::Wall);
    assert!(tile.is_solid());
    assert!(!tile.is_walkable());
    assert!(!w.map.is_standable(MapPosition::new(1, 1)));
}

#[test]
fn building_a_wall_clears_the_powerup_and_fails_on_walls() {
    let mut w = open_world(4, 4);
    w.map
        .set_powerup_at(MapPosition::new(1, 1), PowerupType::SpeedBoost);
    assert!(w.build_wall(MapPosition::new(1, 1)));
    let tile = w.map.get_tile(MapPosition::new(1, 1)).unwrap();
    assert_eq!(tile.powerup(), PowerupType::NoPowerup);
    // a second wall on the same tile is refused, as is out of bounds
    assert!(!w.build_wall(MapPosition::new(1, 1)));
    assert!(!w.build_wall(MapPosition::new(9, 9)));
}

#[test]
fn building_a_floor_reopens_a_wall() {
    let mut w = open_world(4, 4);
    w.build_wall(MapPosition::new(1, 1));
    w.build_floor(MapPosition::new(1, 1));
    let tile = w.map.get_tile(MapPosition::new(1, 1)).unwrap();
    assert_eq!(tile.tile_type(), TileType::WalkableGeneric);
    assert!(w.map.is_standable(MapPosition::new(1, 1)));
}

#[test]
fn occupancy_is_bidirectional() {
    let mut w = open_world(6, 6);
    let ids = [spawn(&mut w, 0, 0), spawn(&mut w, 3, 2), spawn(&mut w, 5, 5)];
    for id in ids {
        let pos = w.get_entity(id).unwrap().position();
        assert_eq!(w.get_entity_id_at(pos), Some(id));
    }
    // and no other tile references any of them
    for y in 0..6 {
        for x in 0..6 {
            let p = MapPosition::new(x, y);
            if let Some(id) = w.get_entity_id_at(p) {
                assert_eq!(w.get_entity(id).unwrap().position(), p);
            }
        }
    }
}

#[test]
fn out_of_bounds_accessors_return_absent() {
    let w = open_world(3, 3);
    assert!(w.map.get_tile(MapPosition::new(3, 0)).is_none());
    assert!(w.map.get_tile(MapPosition::new(0, -1)).is_none());
    assert!(!w.map.in_bounds(MapPosition::new(-1, 2)));
    assert!(!w.map.is_walkable(MapPosition::new(5, 5)));
    assert_eq!(w.get_entity_id_at(MapPosition::new(17, 0)), None);
}

#[test]
fn manhattan_distance_and_neighbors() {
    let a = MapPosition::new(2, 3);
    let b = MapPosition::new(-1, 5);
    assert_eq!(a.manhattan_distance(&b), 5);
    assert_eq!(b.manhattan_distance(&a), 5);
    assert_eq!(a.manhattan_distance(&a), 0);
    let ns = a.neighbors();
    assert_eq!(ns[0], MapPosition::new(2, 2));
    assert_eq!(ns[1], MapPosition::new(2, 4));
    assert_eq!(ns[2], MapPosition::new(1, 3));
    assert_eq!(ns[3], MapPosition::new(3, 3));
    assert_eq!(a.up(1), ns[0]);
    assert_eq!(a.down(1), ns[1]);
    assert_eq!(a.left(1), ns[2]);
    assert_eq!(a.right(1), ns[3]);
    assert_eq!(a.offset(4, -2), MapPosition::new(6, 1));
}

#[test]
fn default_world_has_the_standard_dimensions() {
    let w = WorldState::new();
    assert_eq!(w.map.width(), 100);
    assert_eq!(w.map.height(), 25);
    assert_eq!(w.entities.len(), 0);
    assert_eq!(w.next_entity_id, 0);
    assert_eq!(w.current_team_turn, 1);
    assert!(w.check_wf());
}

#[test]
fn transforms_reset_the_canonical_glyphs() {
    let mut w = open_world(3, 3);
    w.build_wall(MapPosition::new(1, 1));
    assert_eq!(w.map.get_tile(MapPosition::new(1, 1)).unwrap().symbol(), '█');
    w.build_floor(MapPosition::new(1, 1));
    assert_eq!(w.map.get_tile(MapPosition::new(1, 1)).unwrap().symbol(), '.');
}
