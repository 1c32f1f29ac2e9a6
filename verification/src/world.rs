//! The authoritative world model: map, entity collection, id counter and
//! the team whose turn is active.

use vstd::prelude::*;
use crate::entity::{Entity, EntityID};
use crate::grid::GameMap;
use crate::position::MapPosition;
use crate::tile::{PowerupType, Tile, TileType};

verus! {

/// The shared game world.
///
/// The entity collection owns every [`Entity`]; tiles refer to entities
/// by id only. Dead entities are retained as tombstones: their health is
/// zero, no tile references them, and they take no further part in the
/// game. Mutation goes through the methods here and through
/// [`crate::engine::GameEngine`], which keep [`WorldState::wf`].
pub struct WorldState {
    pub map: GameMap,
    pub entities: Vec<Entity>,
    pub next_entity_id: EntityID,
    pub current_team_turn: u32,
}

impl WorldState {
    /// Some entity (live or dead) carries this id.
    pub open spec fn spec_has_entity(self, id: EntityID) -> bool {
        exists|i: int|
            0 <= i < self.entities@.len() && (#[trigger] self.entities@[i]).id == id
    }

    /// Index of the entity with the given id; unique under [`WorldState::wf`].
    pub open spec fn spec_index_of(self, id: EntityID) -> int {
        choose|i: int|
            0 <= i < self.entities@.len() && (#[trigger] self.entities@[i]).id == id
    }

    /// The entity with the given id (meaningful when `spec_has_entity`).
    pub open spec fn spec_entity(self, id: EntityID) -> Entity {
        self.entities@[self.spec_index_of(id)]
    }

    /// An entity with this id exists and is alive.
    pub open spec fn spec_is_live(self, id: EntityID) -> bool {
        self.spec_has_entity(id) && self.spec_entity(id).spec_is_live()
    }

    /// Per-entity invariant: stats within bounds, id below the counter,
    /// and a live entity stands in bounds on a tile that references it.
    pub open spec fn wf_entity_at(self, i: int) -> bool {
        let e = self.entities@[i];
        &&& e.wf()
        &&& e.id < self.next_entity_id
        &&& e.spec_is_live() ==> self.map.spec_in_bounds(e.position)
            && self.map.tile_at(e.position).entity_id == Some(e.id)
    }

    /// Per-tile invariant: a wall carries no occupant or powerup, and an
    /// occupant reference names a living entity standing on this tile.
    pub open spec fn wf_tile_at(self, p: MapPosition) -> bool {
        let t = self.map.tile_at(p);
        &&& t.spec_is_solid() ==> t.entity_id is None && t.powerup == PowerupType::NoPowerup
        &&& t.entity_id matches Some(id) ==> exists|i: int|
            0 <= i < self.entities@.len() && (#[trigger] self.entities@[i]).id == id
                && self.entities@[i].spec_is_live() && self.entities@[i].position == p
    }

    /// The world invariant: map and entity occupancy are consistent.
    pub open spec fn wf(self) -> bool {
        &&& self.map.wf()
        &&& forall|i: int| 0 <= i < self.entities@.len() ==> #[trigger] self.wf_entity_at(i)
        &&& forall|i: int, j: int|
            0 <= i < self.entities@.len() && 0 <= j < self.entities@.len() && i != j
                ==> (#[trigger] self.entities@[i]).id != (#[trigger] self.entities@[j]).id
        &&& forall|p: MapPosition| self.map.spec_in_bounds(p) ==> #[trigger] self.wf_tile_at(p)
    }

    /// Under `wf`, an index holding `id` is the unique such index.
    pub proof fn lemma_index_unique(self, id: EntityID, i: int)
        requires
            self.wf(),
            0 <= i < self.entities@.len(),
            self.entities@[i].id == id,
        ensures
            self.spec_has_entity(id),
            self.spec_index_of(id) == i,
            self.spec_entity(id) == self.entities@[i],
    {
        assert(self.spec_has_entity(id));
        let j = self.spec_index_of(id);
        assert(0 <= j < self.entities@.len() && self.entities@[j].id == id);
    }

    /// Stat bounds hold of every entity at all times (under `wf`).
    pub proof fn lemma_stat_bounds(self, i: int)
        requires
            self.wf(),
            0 <= i < self.entities@.len(),
        ensures
            self.entities@[i].health <= self.entities@[i].max_health,
            self.entities@[i].energy <= self.entities@[i].max_energy,
    {
        assert(self.wf_entity_at(i));
    }

    /// Occupancy consistency: the tile under a living entity references
    /// exactly that entity's id, and no other tile references it.
    pub proof fn lemma_occupancy(self, i: int)
        requires
            self.wf(),
            0 <= i < self.entities@.len(),
            self.entities@[i].spec_is_live(),
        ensures
            self.map.spec_in_bounds(self.entities@[i].position),
            self.map.tile_at(self.entities@[i].position).entity_id == Some(
                self.entities@[i].id,
            ),
            forall|q: MapPosition|
                self.map.spec_in_bounds(q) && q != self.entities@[i].position
                    ==> #[trigger] self.map.tile_at(q).entity_id != Some(self.entities@[i].id),
    {
        assert(self.wf_entity_at(i));
        let e = self.entities@[i];
        assert forall|q: MapPosition|
            self.map.spec_in_bounds(q) && q != e.position implies #[trigger] self.map.tile_at(
            q,
        ).entity_id != Some(e.id) by {
            assert(self.wf_tile_at(q));
            if self.map.tile_at(q).entity_id == Some(e.id) {
                let j = choose|j: int|
                    0 <= j < self.entities@.len() && (#[trigger] self.entities@[j]).id == e.id
                        && self.entities@[j].spec_is_live() && self.entities@[j].position == q;
                assert(j == i);
            }
        }
    }

    /// A fresh world: a default-sized open map, no entities, team 1 active.
    pub fn new() -> (r: Self)
        ensures
            r.wf(),
            r.map.spec_width() == 100,
            r.map.spec_height() == 25,
            forall|p: MapPosition|
                r.map.spec_in_bounds(p) ==> #[trigger] r.map.tile_at(p) == Tile::walkable_tile(),
            r.entities@.len() == 0,
            r.next_entity_id == 0,
            r.current_team_turn == 1,
    {
        let r = WorldState {
            map: GameMap::new(100, 25),
            entities: Vec::new(),
            next_entity_id: 0,
            current_team_turn: 1,
        };
        proof {
            assert forall|p: MapPosition| r.map.spec_in_bounds(p) implies #[trigger] r.wf_tile_at(
                p,
            ) by {
                assert(r.map.tile_at(p) == Tile::walkable_tile());
            }
        }
        r
    }

    /// Index of the entity carrying `id` in the collection, if any.
    pub fn find_entity_index(&self, id: EntityID) -> (r: Option<usize>)
        ensures
            r matches Some(i) ==> i < self.entities@.len() && self.entities@[i as int].id == id,
            r is None ==> !self.spec_has_entity(id),
    {
        let n = self.entities.len();
        let mut k: usize = 0;
        while k < n
            invariant
                k <= n,
                n == self.entities@.len(),
                forall|j: int| 0 <= j < k ==> (#[trigger] self.entities@[j]).id != id,
            decreases n - k,
        {
            if self.entities[k].id() == id {
                return Some(k);
            }
            k = k + 1;
        }
        None
    }

    /// The entity with the given id, dead or alive.
    pub fn get_entity(&self, id: EntityID) -> (r: Option<&Entity>)
        ensures
            r matches Some(e) ==> self.spec_has_entity(id) && e.id == id && exists|i: int|
                0 <= i < self.entities@.len() && self.entities@[i] == *e,
            self.wf() ==> (r matches Some(e) ==> *e == self.spec_entity(id)),
            r is None ==> !self.spec_has_entity(id),
    {
        match self.find_entity_index(id) {
            Some(i) => {
                let e = &self.entities[i];
                proof {
                    if self.wf() {
                        self.lemma_index_unique(id, i as int);
                    }
                }
                Some(e)
            },
            None => None,
        }
    }

    /// The id recorded on the tile at `pos`, or absent when the tile is
    /// unoccupied or out of bounds.
    pub fn get_entity_id_at(&self, pos: MapPosition) -> (r: Option<EntityID>)
        requires
            self.map.wf(),
        ensures
            self.map.spec_in_bounds(pos) ==> r == self.map.tile_at(pos).entity_id,
            !self.map.spec_in_bounds(pos) ==> r is None,
    {
        match self.map.get_tile(pos) {
            Some(t) => t.entity_id(),
            None => None,
        }
    }

    /// Allocates the next entity id, advancing the counter.
    pub fn next_id(&mut self) -> (r: EntityID)
        requires
            old(self).next_entity_id < u32::MAX,
        ensures
            r == old(self).next_entity_id,
            final(self).next_entity_id == old(self).next_entity_id + 1,
            final(self).map == old(self).map,
            final(self).entities == old(self).entities,
            final(self).current_team_turn == old(self).current_team_turn,
            old(self).wf() ==> final(self).wf(),
    {
        let id = self.next_entity_id;
        self.next_entity_id = self.next_entity_id + 1;
        proof {
            if old(self).wf() {
                assert forall|i: int| 0 <= i < self.entities@.len() implies
                    #[trigger] self.wf_entity_at(i) by {
                    assert(old(self).wf_entity_at(i));
                }
                assert forall|p: MapPosition| self.map.spec_in_bounds(p) implies
                    #[trigger] self.wf_tile_at(p) by {
                    assert(old(self).wf_tile_at(p));
                }
            }
        }
        id
    }

    /// Inserts a ready-made entity and records it on its destination tile.
    ///
    /// The caller must already have checked that the destination is
    /// standable and the id fresh; this method does not re-validate.
    pub fn add_entity(&mut self, entity: Entity) -> (r: EntityID)
        requires
            old(self).wf(),
            entity.wf(),
            entity.spec_is_live(),
            entity.id < old(self).next_entity_id,
            forall|i: int|
                0 <= i < old(self).entities@.len() ==> (#[trigger] old(self).entities@[i]).id != entity.id,
            old(self).map.spec_is_standable(entity.position),
        ensures
            r == entity.id,
            final(self).wf(),
            final(self).entities@ == old(self).entities@.push(entity),
            final(self).next_entity_id == old(self).next_entity_id,
            final(self).current_team_turn == old(self).current_team_turn,
            final(self).map.spec_width() == old(self).map.spec_width(),
            final(self).map.spec_height() == old(self).map.spec_height(),
            final(self).map.tile_at(entity.position) == (Tile {
                entity_id: Some(entity.id),
                ..old(self).map.tile_at(entity.position)
            }),
            forall|q: MapPosition|
                old(self).map.spec_in_bounds(q) && q != entity.position ==> #[trigger] final(self).map.tile_at(q) == old(self).map.tile_at(q),
    {
        let id = entity.id();
        let pos = entity.position();
        let ghost oldw = *old(self);
        self.entities.push(entity);
        self.map.set_entity_at(pos, Some(id));
        proof {
            let n = oldw.entities@.len() as int;
            assert forall|i: int| 0 <= i < self.entities@.len() implies
                #[trigger] self.wf_entity_at(i) by {
                if i < n {
                    assert(oldw.wf_entity_at(i));
                    let e = oldw.entities@[i];
                    if e.spec_is_live() && e.position == pos {
                        // the destination was unoccupied, yet the tile would
                        // have referenced this entity
                        assert(oldw.map.tile_at(pos).entity_id == Some(e.id));
                        assert(false);
                    }
                } else {
                    assert(self.entities@[i] == entity);
                }
            }
            assert forall|p: MapPosition| self.map.spec_in_bounds(p) implies
                #[trigger] self.wf_tile_at(p) by {
                assert(oldw.wf_tile_at(p));
                if p == pos {
                    assert(self.entities@[n] == entity);
                } else {
                    match self.map.tile_at(p).entity_id {
                        Some(tid) => {
                            let j = choose|j: int|
                                0 <= j < oldw.entities@.len() && (#[trigger] oldw.entities@[j]).id
                                    == tid && oldw.entities@[j].spec_is_live()
                                    && oldw.entities@[j].position == p;
                            assert(self.entities@[j] == oldw.entities@[j]);
                        },
                        None => {},
                    }
                }
            }
        }
        id
    }

    /// Spawns a new unit at `pos`: assigns the next id, builds the entity
    /// and inserts it. Returns the new id, or absent (changing nothing)
    /// when `pos` is not standable.
    pub fn spawn_entity(
        &mut self,
        pos: MapPosition,
        symbol: char,
        name: String,
        max_health: u32,
        max_energy: u32,
        damage: u32,
        attack_range: u32,
        team: u32,
        is_ai: bool,
    ) -> (r: Option<EntityID>)
        requires
            old(self).wf(),
            old(self).next_entity_id < u32::MAX,
            max_health > 0,
        ensures
            final(self).wf(),
            !old(self).map.spec_is_standable(pos) ==> r is None && *final(self) == *old(self),
            old(self).map.spec_is_standable(pos) ==> {
                let e = Entity {
                    id: old(self).next_entity_id,
                    symbol,
                    name,
                    team,
                    max_health,
                    health: max_health,
                    max_energy,
                    energy: max_energy,
                    damage,
                    attack_range,
                    position: pos,
                    stunned_for_turns: 0,
                    is_selected: false,
                    is_ai,
                };
                &&& r == Some(old(self).next_entity_id)
                &&& final(self).entities@ == old(self).entities@.push(e)
                &&& final(self).next_entity_id == old(self).next_entity_id + 1
                &&& final(self).current_team_turn == old(self).current_team_turn
                &&& final(self).map.spec_width() == old(self).map.spec_width()
                &&& final(self).map.spec_height() == old(self).map.spec_height()
                &&& final(self).map.tile_at(pos) == (Tile {
                    entity_id: Some(old(self).next_entity_id),
                    ..old(self).map.tile_at(pos)
                })
                &&& forall|q: MapPosition|
                    old(self).map.spec_in_bounds(q) && q != pos ==> #[trigger] final(self).map.tile_at(q) == old(self).map.tile_at(q)
            },
    {
        if !self.map.is_standable(pos) {
            return None;
        }
        let id = self.next_id();
        let mut new_entity = Entity::new(
            id,
            symbol,
            name,
            pos,
            team,
            max_health,
            max_energy,
            damage,
            attack_range,
        );
        if is_ai {
            new_entity.set_ai(true);
        }
        proof {
            // ids already in play sit below the counter value just handed out
            assert forall|i: int| 0 <= i < self.entities@.len() implies
                (#[trigger] self.entities@[i]).id != id by {
                assert(old(self).wf_entity_at(i));
            }
        }
        Some(self.add_entity(new_entity))
    }

    /// Evicts whatever occupies `pos`: the referenced entity (if any)
    /// leaves the collection, and the tile sheds occupant and powerup.
    fn clear_pos(&mut self, pos: MapPosition)
        requires
            old(self).wf(),
        ensures
            final(self).wf(),
            final(self).next_entity_id == old(self).next_entity_id,
            final(self).current_team_turn == old(self).current_team_turn,
            !old(self).map.spec_in_bounds(pos) ==> *final(self) == *old(self),
            old(self).map.spec_in_bounds(pos) ==> {
                &&& final(self).map.spec_width() == old(self).map.spec_width()
                &&& final(self).map.spec_height() == old(self).map.spec_height()
                &&& final(self).map.tile_at(pos) == (Tile {
                    entity_id: None,
                    powerup: PowerupType::NoPowerup,
                    ..old(self).map.tile_at(pos)
                })
                &&& forall|q: MapPosition|
                    old(self).map.spec_in_bounds(q) && q != pos ==> #[trigger] final(self).map.tile_at(q) == old(self).map.tile_at(q)
                &&& (old(self).map.tile_at(pos).entity_id is None ==> final(self).entities@ == old(self).entities@)
                &&& (old(self).map.tile_at(pos).entity_id matches Some(id) ==> final(self).entities@ == old(self).entities@.remove(old(self).spec_index_of(id)))
            },
    {
        if !self.map.in_bounds(pos) {
            return ;
        }
        let ghost oldw = *old(self);
        let id_to_remove = match self.map.get_tile(pos) {
            Some(t) => t.entity_id(),
            None => None,
        };
        if let Some(id) = id_to_remove {
            proof {
                assert(oldw.wf_tile_at(pos));
            }
            let k_opt = self.find_entity_index(id);
            proof {
                if k_opt is None {
                    assert(false);
                }
            }
            let k = k_opt.unwrap();
            proof {
                oldw.lemma_index_unique(id, k as int);
            }
            self.entities.remove(k);
            proof {
                let ki = k as int;
                // the removed entity was the living occupant of `pos`
                let occ = choose|i: int|
                    0 <= i < oldw.entities@.len() && (#[trigger] oldw.entities@[i]).id == id
                        && oldw.entities@[i].spec_is_live() && oldw.entities@[i].position == pos;
                assert(occ == ki);
                assert(oldw.entities@[ki].spec_is_live());
                assert(oldw.entities@[ki].position == pos);
            }
        }
        self.map.set_entity_at(pos, None);
        self.map.set_powerup_at(pos, PowerupType::NoPowerup);
        proof {
            match oldw.map.tile_at(pos).entity_id {
                Some(id) => {
                    let ki = oldw.spec_index_of(id);
                assert(self.entities@ == oldw.entities@.remove(ki));
                assert(0 <= ki < oldw.entities@.len());
                assert(oldw.entities@[ki].position == pos && oldw.entities@[ki].spec_is_live());
                assert forall|i: int| 0 <= i < self.entities@.len() implies
                    #[trigger] self.wf_entity_at(i) by {
                    let j = if i < ki {
                        i
                    } else {
                        i + 1
                    };
                    assert(self.entities@[i] == oldw.entities@[j]);
                    assert(oldw.wf_entity_at(j));
                    let e = oldw.entities@[j];
                    if e.spec_is_live() && e.position == pos {
                        // only the removed entity occupied `pos`
                        assert(oldw.map.tile_at(pos).entity_id == Some(e.id));
                        assert(j == ki);
                        assert(false);
                    }
                }
                assert forall|p: MapPosition| self.map.spec_in_bounds(p) implies
                    #[trigger] self.wf_tile_at(p) by {
                    assert(oldw.wf_tile_at(p));
                    if p != pos {
                        match self.map.tile_at(p).entity_id {
                            Some(tid) => {
                                let j = choose|j: int|
                                    0 <= j < oldw.entities@.len()
                                        && (#[trigger] oldw.entities@[j]).id == tid
                                        && oldw.entities@[j].spec_is_live()
                                        && oldw.entities@[j].position == p;
                                assert(j != ki);
                                let i = if j < ki {
                                    j
                                } else {
                                    j - 1
                                };
                                assert(self.entities@[i] == oldw.entities@[j]);
                            },
                            None => {},
                        }
                    }
                }
                },
                None => {
                    assert(self.entities@ == oldw.entities@);
                    assert forall|i: int| 0 <= i < self.entities@.len() implies
                        #[trigger] self.wf_entity_at(i) by {
                        assert(oldw.wf_entity_at(i));
                        let e = oldw.entities@[i];
                        if e.spec_is_live() && e.position == pos {
                            assert(oldw.map.tile_at(pos).entity_id == Some(e.id));
                            assert(false);
                        }
                    }
                    assert forall|p: MapPosition| self.map.spec_in_bounds(p) implies
                        #[trigger] self.wf_tile_at(p) by {
                        assert(oldw.wf_tile_at(p));
                    }
                },
            }
        }
    }

    /// Builds a wall at `pos`, first evicting any occupant; returns
    /// whether the terrain was walkable and became a wall.
    pub fn build_wall(&mut self, pos: MapPosition) -> (r: bool)
        requires
            old(self).wf(),
        ensures
            final(self).wf(),
            r == old(self).map.spec_is_walkable(pos),
            final(self).next_entity_id == old(self).next_entity_id,
            final(self).current_team_turn == old(self).current_team_turn,
            !old(self).map.spec_in_bounds(pos) ==> *final(self) == *old(self),
            old(self).map.spec_in_bounds(pos) ==> {
                &&& final(self).map.spec_width() == old(self).map.spec_width()
                &&& final(self).map.spec_height() == old(self).map.spec_height()
                &&& forall|q: MapPosition|
                    old(self).map.spec_in_bounds(q) && q != pos ==> #[trigger] final(self).map.tile_at(q) == old(self).map.tile_at(q)
                &&& (r ==> final(self).map.tile_at(pos) == (Tile {
                    tile_type: TileType::Wall,
                    symbol: crate::tile::spec_glyph(TileType::Wall),
                    entity_id: None,
                    powerup: PowerupType::NoPowerup,
                }))
                &&& (!r ==> final(self).map.tile_at(pos) == old(self).map.tile_at(pos))
                &&& (old(self).map.tile_at(pos).entity_id is None ==> final(self).entities@ == old(self).entities@)
                &&& (old(self).map.tile_at(pos).entity_id matches Some(id) ==> final(self).entities@ == old(self).entities@.remove(old(self).spec_index_of(id)))
            },
    {
        let ghost oldw = *old(self);
        self.clear_pos(pos);
        let ghost midw = *self;
        let r = self.map.build_wall(pos);
        proof {
            if oldw.map.spec_in_bounds(pos) && !r {
                // a solid tile carries no occupant or powerup, so the
                // eviction left it unchanged
                assert(oldw.wf_tile_at(pos));
            }
            if r {
                assert forall|i: int| 0 <= i < self.entities@.len() implies
                    #[trigger] self.wf_entity_at(i) by {
                    assert(midw.wf_entity_at(i));
                    let e = midw.entities@[i];
                    if e.spec_is_live() && e.position == pos {
                        // the eviction left no occupant reference at `pos`
                        assert(midw.map.tile_at(pos).entity_id == Some(e.id));
                        assert(false);
                    }
                }
                assert(self.entities@ == midw.entities@);
                assert forall|p: MapPosition| self.map.spec_in_bounds(p) implies
                    #[trigger] self.wf_tile_at(p) by {
                    assert(midw.wf_tile_at(p));
                    if p == pos {
                        assert(self.map.tile_at(p) == midw.map.tile_at(pos).spec_transform(
                            TileType::Wall,
                        ));
                    } else {
                        assert(self.map.tile_at(p) == midw.map.tile_at(p));
                        match self.map.tile_at(p).entity_id {
                            Some(tid) => {
                                let j = choose|j: int|
                                    0 <= j < midw.entities@.len()
                                        && (#[trigger] midw.entities@[j]).id == tid
                                        && midw.entities@[j].spec_is_live()
                                        && midw.entities@[j].position == p;
                                assert(0 <= j < self.entities@.len()
                                    && (#[trigger] self.entities@[j]).id == tid
                                    && self.entities@[j].spec_is_live()
                                    && self.entities@[j].position == p);
                            },
                            None => {},
                        }
                    }
                }
            } else {
                assert forall|i: int| 0 <= i < self.entities@.len() implies
                    #[trigger] self.wf_entity_at(i) by {
                    assert(midw.wf_entity_at(i));
                }
                assert forall|p: MapPosition| self.map.spec_in_bounds(p) implies
                    #[trigger] self.wf_tile_at(p) by {
                    assert(midw.wf_tile_at(p));
                }
            }
        }
        r
    }

    /// Clears `pos` back to floor, first evicting any occupant.
    pub fn build_floor(&mut self, pos: MapPosition)
        requires
            old(self).wf(),
        ensures
            final(self).wf(),
            final(self).next_entity_id == old(self).next_entity_id,
            final(self).current_team_turn == old(self).current_team_turn,
            !old(self).map.spec_in_bounds(pos) ==> *final(self) == *old(self),
            old(self).map.spec_in_bounds(pos) ==> {
                &&& final(self).map.spec_width() == old(self).map.spec_width()
                &&& final(self).map.spec_height() == old(self).map.spec_height()
                &&& forall|q: MapPosition|
                    old(self).map.spec_in_bounds(q) && q != pos ==> #[trigger] final(self).map.tile_at(q) == old(self).map.tile_at(q)
                &&& final(self).map.tile_at(pos) == Tile::walkable_tile()
                &&& (old(self).map.tile_at(pos).entity_id is None ==> final(self).entities@ == old(self).entities@)
                &&& (old(self).map.tile_at(pos).entity_id matches Some(id) ==> final(self).entities@ == old(self).entities@.remove(old(self).spec_index_of(id)))
            },
    {
        self.clear_pos(pos);
        let ghost midw = *self;
        if self.map.in_bounds(pos) {
            self.map.transform_at(pos, TileType::WalkableGeneric);
            proof {
                assert forall|i: int| 0 <= i < self.entities@.len() implies
                    #[trigger] self.wf_entity_at(i) by {
                    assert(midw.wf_entity_at(i));
                    let e = midw.entities@[i];
                    if e.spec_is_live() && e.position == pos {
                        // the eviction left no occupant reference at `pos`
                        assert(midw.map.tile_at(pos).entity_id == Some(e.id));
                        assert(false);
                    }
                }
                assert forall|p: MapPosition| self.map.spec_in_bounds(p) implies
                    #[trigger] self.wf_tile_at(p) by {
                    assert(midw.wf_tile_at(p));
                }
            }
        }
    }
}

impl WorldState {
    /// A pointwise rewrite of the entity collection that keeps every
    /// entity's id, position, liveness and stat bounds, and leaves the
    /// map and the id counter alone, preserves the world invariant.
    pub proof fn lemma_wf_after_pointwise_update(pre: WorldState, post: WorldState)
        requires
            pre.wf(),
            post.map == pre.map,
            post.next_entity_id == pre.next_entity_id,
            post.entities@.len() == pre.entities@.len(),
            forall|i: int|
                0 <= i < pre.entities@.len() ==> {
                    let e = #[trigger] post.entities@[i];
                    let o = pre.entities@[i];
                    e.wf() && e.id == o.id && e.position == o.position && e.spec_is_live()
                        == o.spec_is_live()
                },
        ensures
            post.wf(),
    {
        assert forall|i: int| 0 <= i < post.entities@.len() implies #[trigger] post.wf_entity_at(
            i,
        ) by {
            assert(pre.wf_entity_at(i));
            assert(pre.entities@[i] == pre.entities@[i]);
        }
        assert forall|p: MapPosition| post.map.spec_in_bounds(p) implies #[trigger] post.wf_tile_at(
            p,
        ) by {
            assert(pre.wf_tile_at(p));
            match post.map.tile_at(p).entity_id {
                Some(tid) => {
                    let j = choose|j: int|
                        0 <= j < pre.entities@.len() && (#[trigger] pre.entities@[j]).id == tid
                            && pre.entities@[j].spec_is_live() && pre.entities@[j].position == p;
                    assert(0 <= j < post.entities@.len() && (#[trigger] post.entities@[j]).id
                        == tid && post.entities@[j].spec_is_live() && post.entities@[j].position
                        == p);
                },
                None => {},
            }
        }
    }

    /// Replacing one entity while keeping its id, position, liveness and
    /// stat bounds preserves the world invariant.
    pub proof fn lemma_wf_after_entity_update(pre: WorldState, post: WorldState, k: int)
        requires
            pre.wf(),
            post.map == pre.map,
            post.next_entity_id == pre.next_entity_id,
            0 <= k < pre.entities@.len(),
            post.entities@ == pre.entities@.update(k, post.entities@[k]),
            post.entities@[k].wf(),
            post.entities@[k].id == pre.entities@[k].id,
            post.entities@[k].position == pre.entities@[k].position,
            post.entities@[k].spec_is_live() == pre.entities@[k].spec_is_live(),
        ensures
            post.wf(),
    {
        assert forall|i: int| 0 <= i < pre.entities@.len() implies {
            let e = #[trigger] post.entities@[i];
            let o = pre.entities@[i];
            e.wf() && e.id == o.id && e.position == o.position && e.spec_is_live()
                == o.spec_is_live()
        } by {
            assert(pre.wf_entity_at(i));
        }
        Self::lemma_wf_after_pointwise_update(pre, post);
    }

    /// Spends `cost` energy of the entity at index `k`, which must be
    /// able to act at that cost.
    pub fn consume_energy_of(&mut self, k: usize, cost: u32)
        requires
            old(self).wf(),
            k < old(self).entities@.len(),
            old(self).entities@[k as int].spec_can_act(cost),
        ensures
            final(self).wf(),
            final(self).entities@ == old(self).entities@.update(k as int, Entity {
                energy: (old(self).entities@[k as int].energy - cost) as u32,
                ..old(self).entities@[k as int]
            }),
            final(self).map == old(self).map,
            final(self).next_entity_id == old(self).next_entity_id,
            final(self).current_team_turn == old(self).current_team_turn,
    {
        let e = &mut self.entities[k];
        e.consume_energy(cost);
        proof {
            assert(old(self).wf_entity_at(k as int));
            Self::lemma_wf_after_entity_update(*old(self), *self, k as int);
        }
    }

    /// Deals `amount` damage to the living entity at index `k`; on death
    /// the occupant reference leaves the entity's tile. Returns whether
    /// the target died.
    pub fn damage_entity_at(&mut self, k: usize, amount: u32) -> (died: bool)
        requires
            old(self).wf(),
            k < old(self).entities@.len(),
            old(self).entities@[k as int].spec_is_live(),
        ensures
            final(self).wf(),
            died == (old(self).entities@[k as int].health <= amount),
            final(self).entities@ == old(self).entities@.update(k as int, Entity {
                health: if old(self).entities@[k as int].health >= amount {
                    (old(self).entities@[k as int].health - amount) as u32
                } else {
                    0
                },
                ..old(self).entities@[k as int]
            }),
            final(self).next_entity_id == old(self).next_entity_id,
            final(self).current_team_turn == old(self).current_team_turn,
            final(self).map.spec_width() == old(self).map.spec_width(),
            final(self).map.spec_height() == old(self).map.spec_height(),
            !died ==> final(self).map == old(self).map,
            died ==> final(self).map.tile_at(old(self).entities@[k as int].position) == (Tile {
                entity_id: None,
                ..old(self).map.tile_at(old(self).entities@[k as int].position)
            }),
            died ==> forall|q: MapPosition|
                old(self).map.spec_in_bounds(q) && q != old(self).entities@[k as int].position
                    ==> #[trigger] final(self).map.tile_at(q) == old(self).map.tile_at(q),
    {
        proof {
            assert(old(self).wf_entity_at(k as int));
        }
        let pos = self.entities[k].position();
        let e = &mut self.entities[k];
        let died = e.take_damage(amount);
        if died {
            self.map.set_entity_at(pos, None);
            proof {
                let ki = k as int;
                let oldw = *old(self);
                assert forall|i: int| 0 <= i < self.entities@.len() implies
                    #[trigger] self.wf_entity_at(i) by {
                    assert(oldw.wf_entity_at(i));
                    if i != ki {
                        let e2 = oldw.entities@[i];
                        if e2.spec_is_live() && e2.position == pos {
                            // two living entities cannot share a tile
                            assert(oldw.map.tile_at(pos).entity_id == Some(e2.id));
                            assert(oldw.map.tile_at(pos).entity_id == Some(
                                oldw.entities@[ki].id,
                            ));
                            assert(false);
                        }
                    }
                }
                assert forall|p: MapPosition| self.map.spec_in_bounds(p) implies
                    #[trigger] self.wf_tile_at(p) by {
                    assert(oldw.wf_tile_at(p));
                    if p != pos {
                        match self.map.tile_at(p).entity_id {
                            Some(tid) => {
                                let j = choose|j: int|
                                    0 <= j < oldw.entities@.len()
                                        && (#[trigger] oldw.entities@[j]).id == tid
                                        && oldw.entities@[j].spec_is_live()
                                        && oldw.entities@[j].position == p;
                                assert(j != ki);
                                assert(0 <= j < self.entities@.len()
                                    && (#[trigger] self.entities@[j]).id == tid
                                    && self.entities@[j].spec_is_live()
                                    && self.entities@[j].position == p);
                            },
                            None => {},
                        }
                    }
                }
            }
        } else {
            proof {
                Self::lemma_wf_after_entity_update(*old(self), *self, k as int);
            }
        }
        died
    }

    /// Moves the living entity at index `k` onto the standable tile at
    /// `target`: its old tile sheds the occupant reference, the target
    /// tile records it, and any powerup waiting there is consumed.
    pub fn relocate_entity(&mut self, k: usize, target: MapPosition)
        requires
            old(self).wf(),
            k < old(self).entities@.len(),
            old(self).entities@[k as int].spec_is_live(),
            old(self).map.spec_is_standable(target),
        ensures
            final(self).wf(),
            final(self).entities@ == old(self).entities@.update(k as int, Entity {
                position: target,
                ..old(self).entities@[k as int]
            }),
            final(self).next_entity_id == old(self).next_entity_id,
            final(self).current_team_turn == old(self).current_team_turn,
            final(self).map.spec_width() == old(self).map.spec_width(),
            final(self).map.spec_height() == old(self).map.spec_height(),
            final(self).map.tile_at(old(self).entities@[k as int].position) == (Tile {
                entity_id: None,
                ..old(self).map.tile_at(old(self).entities@[k as int].position)
            }),
            final(self).map.tile_at(target) == (Tile {
                entity_id: Some(old(self).entities@[k as int].id),
                powerup: PowerupType::NoPowerup,
                ..old(self).map.tile_at(target)
            }),
            forall|q: MapPosition|
                old(self).map.spec_in_bounds(q) && q != old(self).entities@[k as int].position
                    && q != target ==> #[trigger] final(self).map.tile_at(q) == old(
                    self,
                ).map.tile_at(q),
    {
        proof {
            assert(old(self).wf_entity_at(k as int));
        }
        let old_pos = self.entities[k].position();
        let id = self.entities[k].id();
        proof {
            // the destination is free, so it differs from the origin
            assert(old(self).map.tile_at(old_pos).entity_id == Some(id));
            assert(old_pos != target);
        }
        let e = &mut self.entities[k];
        e.set_position(target);
        self.map.set_entity_at(old_pos, None);
        self.map.set_entity_at(target, Some(id));
        let _consumed = self.map.take_powerup_at(target);
        proof {
            let ki = k as int;
            let oldw = *old(self);
            assert forall|i: int| 0 <= i < self.entities@.len() implies #[trigger] self.wf_entity_at(
                i,
            ) by {
                assert(oldw.wf_entity_at(i));
                if i != ki {
                    let e2 = oldw.entities@[i];
                    if e2.spec_is_live() {
                        if e2.position == old_pos {
                            assert(oldw.map.tile_at(old_pos).entity_id == Some(e2.id));
                            assert(false);
                        }
                        if e2.position == target {
                            assert(oldw.map.tile_at(target).entity_id == Some(e2.id));
                            assert(false);
                        }
                    }
                }
            }
            assert forall|p: MapPosition| self.map.spec_in_bounds(p) implies
                #[trigger] self.wf_tile_at(p) by {
                assert(oldw.wf_tile_at(p));
                if p == target {
                    assert(self.entities@[ki].id == id && self.entities@[ki].spec_is_live()
                        && self.entities@[ki].position == target);
                } else if p != old_pos {
                    match self.map.tile_at(p).entity_id {
                        Some(tid) => {
                            let j = choose|j: int|
                                0 <= j < oldw.entities@.len()
                                    && (#[trigger] oldw.entities@[j]).id == tid
                                    && oldw.entities@[j].spec_is_live()
                                    && oldw.entities@[j].position == p;
                            assert(j != ki);
                            assert(0 <= j < self.entities@.len()
                                && (#[trigger] self.entities@[j]).id == tid
                                && self.entities@[j].spec_is_live()
                                && self.entities@[j].position == p);
                        },
                        None => {},
                    }
                }
            }
        }
    }

    /// The entity after the start-of-turn refresh for `team`: a living
    /// member has its stun counted down and, if then unstunned, its
    /// energy refilled; everyone else is untouched.
    pub open spec fn spec_refreshed(e: Entity, team: u32) -> Entity {
        if e.spec_is_live() && e.team == team {
            let stun = if e.stunned_for_turns > 0 {
                (e.stunned_for_turns - 1) as u32
            } else {
                0
            };
            Entity {
                stunned_for_turns: stun,
                energy: if stun == 0 {
                    e.max_energy
                } else {
                    e.energy
                },
                ..e
            }
        } else {
            e
        }
    }

    /// Start-of-turn refresh for every living member of `team`.
    pub fn refresh_team(&mut self, team: u32)
        requires
            old(self).wf(),
        ensures
            final(self).wf(),
            final(self).entities@.len() == old(self).entities@.len(),
            forall|i: int|
                0 <= i < old(self).entities@.len() ==> #[trigger] final(self).entities@[i]
                    == Self::spec_refreshed(old(self).entities@[i], team),
            final(self).map == old(self).map,
            final(self).next_entity_id == old(self).next_entity_id,
            final(self).current_team_turn == old(self).current_team_turn,
    {
        let n = self.entities.len();
        let mut k: usize = 0;
        while k < n
            invariant
                k <= n,
                n == self.entities@.len(),
                self.entities@.len() == old(self).entities@.len(),
                self.map == old(self).map,
                self.next_entity_id == old(self).next_entity_id,
                self.current_team_turn == old(self).current_team_turn,
                forall|i: int|
                    0 <= i < k ==> #[trigger] self.entities@[i] == Self::spec_refreshed(
                        old(self).entities@[i],
                        team,
                    ),
                forall|i: int|
                    k <= i < n ==> #[trigger] self.entities@[i] == old(self).entities@[i],
            decreases n - k,
        {
            let refresh = self.entities[k].team() == team && !self.entities[k].is_dead();
            if refresh {
                let e = &mut self.entities[k];
                e.reduce_stun();
                e.refill_energy();
            }
            k = k + 1;
        }
        proof {
            assert forall|i: int| 0 <= i < old(self).entities@.len() implies {
                let e = #[trigger] self.entities@[i];
                let o = old(self).entities@[i];
                e.wf() && e.id == o.id && e.position == o.position && e.spec_is_live()
                    == o.spec_is_live()
            } by {
                assert(old(self).wf_entity_at(i));
            }
            Self::lemma_wf_after_pointwise_update(*old(self), *self);
        }
    }

    /// Hands the turn to `team`.
    pub fn set_current_team(&mut self, team: u32)
        requires
            old(self).wf(),
        ensures
            final(self).wf(),
            final(self).map == old(self).map,
            final(self).entities == old(self).entities,
            final(self).next_entity_id == old(self).next_entity_id,
            final(self).current_team_turn == team,
    {
        self.current_team_turn = team;
        proof {
            assert forall|i: int| 0 <= i < self.entities@.len() implies
                #[trigger] self.wf_entity_at(i) by {
                assert(old(self).wf_entity_at(i));
            }
            assert forall|p: MapPosition| self.map.spec_in_bounds(p) implies
                #[trigger] self.wf_tile_at(p) by {
                assert(old(self).wf_tile_at(p));
            }
        }
    }

    /// Decides [`WorldState::wf`] at run time, for worlds arriving from
    /// outside (a loaded snapshot).
    pub fn check_wf(&self) -> (r: bool)
        ensures
            r == self.wf(),
    {
        if !self.map.check_wf() {
            return false;
        }
        let n = self.entities.len();
        let mut i: usize = 0;
        while i < n
            invariant
                i <= n,
                n == self.entities@.len(),
                self.map.wf(),
                forall|k: int| 0 <= k < i ==> #[trigger] self.wf_entity_at(k),
            decreases n - i,
        {
            let e = &self.entities[i];
            if e.health > e.max_health || e.energy > e.max_energy || e.id
                >= self.next_entity_id {
                proof {
                    assert(!self.wf_entity_at(i as int));
                }
                return false;
            }
            if !e.is_dead() {
                match self.map.get_tile(e.position()) {
                    Some(t) => {
                        let occupant = t.entity_id();
                        if occupant != Some(e.id()) {
                            proof {
                                assert(!self.wf_entity_at(i as int));
                            }
                            return false;
                        }
                    },
                    None => {
                        proof {
                            assert(!self.wf_entity_at(i as int));
                        }
                        return false;
                    },
                }
            }
            i = i + 1;
        }
        let mut a: usize = 0;
        while a < n
            invariant
                a <= n,
                n == self.entities@.len(),
                self.map.wf(),
                forall|k: int| 0 <= k < n ==> #[trigger] self.wf_entity_at(k),
                forall|x: int, y: int|
                    0 <= x < a && x < y < n ==> (#[trigger] self.entities@[x]).id != (
                    #[trigger] self.entities@[y]).id,
            decreases n - a,
        {
            let mut b: usize = a + 1;
            while b < n
                invariant
                    a < b <= n,
                    a < n,
                    n == self.entities@.len(),
                    forall|y: int|
                        a < y < b ==> (#[trigger] self.entities@[y]).id != self.entities@[
                            a as int
                        ].id,
                decreases n - b,
            {
                if self.entities[a].id() == self.entities[b].id() {
                    return false;
                }
                b = b + 1;
            }
            a = a + 1;
        }
        let w = self.map.width();
        let h = self.map.height();
        proof {
            self.map.lemma_wf_dims();
        }
        let mut y: i32 = 0;
        while y < h
            invariant
                0 <= y <= h,
                w == self.map.spec_width(),
                h == self.map.spec_height(),
                self.map.wf(),
                forall|k: int| 0 <= k < self.entities@.len() ==> #[trigger] self.wf_entity_at(k),
                forall|x2: int, y2: int|
                    0 <= x2 < self.entities@.len() && 0 <= y2 < self.entities@.len() && x2 != y2
                        ==> (#[trigger] self.entities@[x2]).id != (
                    #[trigger] self.entities@[y2]).id,
                forall|p: MapPosition|
                    self.map.spec_in_bounds(p) && p.y < y ==> #[trigger] self.wf_tile_at(p),
            decreases h - y,
        {
            proof {
                self.map.lemma_wf_dims();
            }
            let mut x: i32 = 0;
            while x < w
                invariant
                    0 <= x <= w,
                    0 <= y < h,
                    w == self.map.spec_width(),
                    h == self.map.spec_height(),
                    self.map.wf(),
                    forall|k: int|
                        0 <= k < self.entities@.len() ==> #[trigger] self.wf_entity_at(k),
                    forall|x2: int, y2: int|
                        0 <= x2 < self.entities@.len() && 0 <= y2 < self.entities@.len() && x2
                            != y2 ==> (#[trigger] self.entities@[x2]).id != (
                        #[trigger] self.entities@[y2]).id,
                    forall|p: MapPosition|
                        self.map.spec_in_bounds(p) && (p.y < y || (p.y == y && p.x < x))
                            ==> #[trigger] self.wf_tile_at(p),
                decreases w - x,
            {
                let pos = MapPosition::new(x, y);
                let t = *self.map.get_tile(pos).unwrap();
                if t.is_solid() && (t.entity_id().is_some() || t.powerup().is_some()) {
                    proof {
                        assert(!self.wf_tile_at(pos));
                    }
                    return false;
                }
                if let Some(id) = t.entity_id() {
                    let ok = match self.find_entity_index(id) {
                        Some(k) => {
                            let e = &self.entities[k];
                            !e.is_dead() && e.position() == pos
                        },
                        None => false,
                    };
                    if !ok {
                        proof {
                            // with unique ids, the one entity carrying `id`
                            // fails the occupancy conditions, so no witness
                            // exists
                            if self.wf_tile_at(pos) {
                                let j = choose|j: int|
                                    0 <= j < self.entities@.len()
                                        && (#[trigger] self.entities@[j]).id == id
                                        && self.entities@[j].spec_is_live()
                                        && self.entities@[j].position == pos;
                                assert(self.spec_has_entity(id));
                            }
                        }
                        return false;
                    }
                }
                x = x + 1;
            }
            y = y + 1;
        }
        proof {
            assert forall|p: MapPosition| self.map.spec_in_bounds(p) implies
                #[trigger] self.wf_tile_at(p) by {
            }
        }
        true
    }

    /// Sets or clears the selection flag of the entity carrying `id`.
    pub fn set_entity_selected(&mut self, id: EntityID, selected: bool)
        requires
            old(self).wf(),
        ensures
            final(self).wf(),
            !old(self).spec_has_entity(id) ==> *final(self) == *old(self),
            old(self).spec_has_entity(id) ==> final(self).entities@ == old(
                self,
            ).entities@.update(old(self).spec_index_of(id), Entity {
                is_selected: selected,
                ..old(self).spec_entity(id)
            }),
            final(self).map == old(self).map,
            final(self).next_entity_id == old(self).next_entity_id,
            final(self).current_team_turn == old(self).current_team_turn,
    {
        match self.find_entity_index(id) {
            Some(k) => {
                proof {
                    old(self).lemma_index_unique(id, k as int);
                    assert(old(self).wf_entity_at(k as int));
                }
                let e = &mut self.entities[k];
                e.set_selected(selected);
                proof {
                    Self::lemma_wf_after_entity_update(*old(self), *self, k as int);
                }
            },
            None => {},
        }
    }
}

} // verus!
