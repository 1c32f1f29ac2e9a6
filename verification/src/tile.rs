//! Map cells: terrain type, occupancy back-reference and pending powerup.

use vstd::prelude::*;

verus! {

/// Terrain of a single map cell.
#[derive(Debug, Clone, Copy, PartialEq, Eq, Structural)]
pub enum TileType {
    WalkableGeneric,
    Wall,
}

/// A pickup that may be waiting on a tile.
#[derive(Debug, Clone, Copy, PartialEq, Eq, Structural)]
pub enum PowerupType {
    NoPowerup,
    HealingPotion,
    SpeedBoost,
    WallBreaker,
}

impl PowerupType {
    /// A stable small identifier for each variant.
    pub open spec fn spec_to_id(self) -> u8 {
        match self {
            PowerupType::NoPowerup => 0,
            PowerupType::HealingPotion => 1,
            PowerupType::SpeedBoost => 2,
            PowerupType::WallBreaker => 3,
        }
    }

    /// The variant with the given identifier, if any.
    pub open spec fn spec_from_id(id: u32) -> Option<PowerupType> {
        if id == 0 {
            Some(PowerupType::NoPowerup)
        } else if id == 1 {
            Some(PowerupType::HealingPotion)
        } else if id == 2 {
            Some(PowerupType::SpeedBoost)
        } else if id == 3 {
            Some(PowerupType::WallBreaker)
        } else {
            None
        }
    }

    pub fn to_id(&self) -> (r: u8)
        ensures
            r == self.spec_to_id(),
    {
        match self {
            PowerupType::NoPowerup => 0,
            PowerupType::HealingPotion => 1,
            PowerupType::SpeedBoost => 2,
            PowerupType::WallBreaker => 3,
        }
    }

    pub fn is_some(&self) -> (r: bool)
        ensures
            r == (*self != PowerupType::NoPowerup),
    {
        match self {
            PowerupType::NoPowerup => false,
            _ => true,
        }
    }

    /// Removes and returns the pending powerup, leaving no powerup behind.
    pub fn take(&mut self) -> (r: PowerupType)
        ensures
            r == *old(self),
            *final(self) == PowerupType::NoPowerup,
    {
        let p = *self;
        *self = PowerupType::NoPowerup;
        p
    }
}

/// One cell of the map.
///
/// Invariant (kept by [`crate::world::WorldState`]): a `Wall` tile never
/// carries an entity reference or a powerup, and an entity reference
/// always names the unique living entity standing on this tile.
#[derive(Debug, Clone, Copy)]
pub struct Tile {
    pub tile_type: TileType,
    pub symbol: char,
    pub entity_id: Option<u32>,
    pub powerup: PowerupType,
}

/// The canonical display glyph for each terrain type.
pub open spec fn spec_glyph(t: TileType) -> char {
    match t {
        TileType::WalkableGeneric => '.',
        TileType::Wall => '█',
    }
}

impl Tile {
    /// The tile after an in-place transform to `new_type`: the glyph is
    /// reset and, for a wall, the entity reference and powerup are cleared.
    pub open spec fn spec_transform(self, new_type: TileType) -> Tile {
        if new_type == TileType::Wall {
            Tile { tile_type: new_type, symbol: spec_glyph(new_type), entity_id: None, powerup: PowerupType::NoPowerup }
        } else {
            Tile { tile_type: new_type, symbol: spec_glyph(new_type), ..self }
        }
    }

    pub open spec fn spec_is_walkable(self) -> bool {
        self.tile_type == TileType::WalkableGeneric
    }

    pub open spec fn spec_is_solid(self) -> bool {
        self.tile_type == TileType::Wall
    }

    pub open spec fn spec_can_stand(self) -> bool {
        self.spec_is_walkable() && self.entity_id is None
    }

    pub fn new(tile_type: TileType, symbol: char) -> (r: Self)
        ensures
            r.tile_type == tile_type,
            r.symbol == symbol,
            r.entity_id is None,
            r.powerup == PowerupType::NoPowerup,
    {
        Tile { tile_type, symbol, entity_id: None, powerup: PowerupType::NoPowerup }
    }

    /// A fresh walkable tile with the canonical floor glyph.
    pub fn walkable() -> (r: Self)
        ensures
            r.tile_type == TileType::WalkableGeneric,
            r.symbol == spec_glyph(TileType::WalkableGeneric),
            r.entity_id is None,
            r.powerup == PowerupType::NoPowerup,
    {
        Tile::new(TileType::WalkableGeneric, '.')
    }

    /// A fresh wall tile with the canonical wall glyph.
    pub fn wall() -> (r: Self)
        ensures
            r.tile_type == TileType::Wall,
            r.symbol == spec_glyph(TileType::Wall),
            r.entity_id is None,
            r.powerup == PowerupType::NoPowerup,
    {
        Tile::new(TileType::Wall, '█')
    }

    pub fn tile_type(&self) -> (r: TileType)
        ensures
            r == self.tile_type,
    {
        self.tile_type
    }

    pub fn symbol(&self) -> (r: char)
        ensures
            r == self.symbol,
    {
        self.symbol
    }

    pub fn entity_id(&self) -> (r: Option<u32>)
        ensures
            r == self.entity_id,
    {
        self.entity_id
    }

    pub fn powerup(&self) -> (r: PowerupType)
        ensures
            r == self.powerup,
    {
        self.powerup
    }

    pub fn is_walkable(&self) -> (r: bool)
        ensures
            r == self.spec_is_walkable(),
    {
        matches!(self.tile_type, TileType::WalkableGeneric)
    }

    pub fn is_solid(&self) -> (r: bool)
        ensures
            r == self.spec_is_solid(),
    {
        matches!(self.tile_type, TileType::Wall)
    }

    pub fn is_occupied(&self) -> (r: bool)
        ensures
            r == (self.entity_id is Some),
    {
        self.entity_id.is_some()
    }

    /// Walkable terrain with no occupant: an entity may stand here.
    pub fn can_stand(&self) -> (r: bool)
        ensures
            r == self.spec_can_stand(),
    {
        self.is_walkable() && !self.is_occupied()
    }

    pub fn set_entity(&mut self, id: Option<u32>)
        ensures
            *final(self) == (Tile { entity_id: id, ..*old(self) }),
    {
        self.entity_id = id;
    }

    pub fn set_powerup(&mut self, powerup: PowerupType)
        ensures
            *final(self) == (Tile { powerup, ..*old(self) }),
    {
        self.powerup = powerup;
    }

    /// Removes and returns the tile's pending powerup.
    pub fn take_powerup(&mut self) -> (r: PowerupType)
        ensures
            r == old(self).powerup,
            *final(self) == (Tile { powerup: PowerupType::NoPowerup, ..*old(self) }),
    {
        let powerup = self.powerup;
        self.powerup = PowerupType::NoPowerup;
        powerup
    }

    /// Changes the terrain type and resets the tile's state: the glyph
    /// becomes the canonical one, and a wall sheds occupant and powerup.
    pub fn transform(&mut self, new_type: TileType)
        ensures
            *final(self) == old(self).spec_transform(new_type),
    {
        self.tile_type = new_type;
        self.symbol = match new_type {
            TileType::WalkableGeneric => '.',
            TileType::Wall => '█',
        };
        if self.is_solid() {
            self.entity_id = None;
            self.powerup = PowerupType::NoPowerup;
        }
    }
}

} // verus!
