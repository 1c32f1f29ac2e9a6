//! The fixed-size grid of tiles, stored in row-major order.

use vstd::prelude::*;
use crate::position::MapPosition;
use crate::tile::{Tile, TileType};

verus! {

/// A rectangular map of [`Tile`]s addressed by [`MapPosition`].
///
/// Out-of-range coordinates yield an absent result from the accessors
/// rather than a failure.
#[derive(Debug)]
pub struct GameMap {
    width: i32,
    height: i32,
    tiles: Vec<Tile>,
}

impl GameMap {
    /// The dimensions describe the tile storage exactly.
    pub closed spec fn wf(self) -> bool {
        &&& 0 <= self.width
        &&& 0 <= self.height
        &&& self.width * self.height == self.tiles@.len()
    }

    pub closed spec fn spec_width(self) -> i32 {
        self.width
    }

    pub closed spec fn spec_height(self) -> i32 {
        self.height
    }

    pub closed spec fn spec_tiles(self) -> Seq<Tile> {
        self.tiles@
    }

    pub open spec fn spec_in_bounds(self, pos: MapPosition) -> bool {
        &&& 0 <= pos.x < self.spec_width()
        &&& 0 <= pos.y < self.spec_height()
    }

    /// Row-major index of an in-bounds position.
    pub open spec fn spec_index(self, pos: MapPosition) -> int {
        pos.y * self.spec_width() + pos.x
    }

    /// The tile at an in-bounds position.
    pub open spec fn tile_at(self, pos: MapPosition) -> Tile {
        self.spec_tiles()[self.spec_index(pos)]
    }

    pub open spec fn spec_is_walkable(self, pos: MapPosition) -> bool {
        self.spec_in_bounds(pos) && self.tile_at(pos).spec_is_walkable()
    }

    pub open spec fn spec_is_standable(self, pos: MapPosition) -> bool {
        self.spec_in_bounds(pos) && self.tile_at(pos).spec_can_stand()
    }

    /// What the map invariant says of the dimensions.
    pub proof fn lemma_wf_dims(self)
        requires
            self.wf(),
        ensures
            0 <= self.spec_width(),
            0 <= self.spec_height(),
            self.spec_width() * self.spec_height() == self.spec_tiles().len(),
    {
    }

    /// Whether a map is well-formed depends only on its dimensions and
    /// tile storage.
    pub proof fn lemma_wf_eq_of_parts(a: GameMap, b: GameMap)
        requires
            a.spec_width() == b.spec_width(),
            a.spec_height() == b.spec_height(),
            a.spec_tiles() == b.spec_tiles(),
        ensures
            a.wf() == b.wf(),
    {
    }

    /// The row-major index of an in-bounds position is a valid tile index.
    pub proof fn lemma_index_in_range(self, pos: MapPosition)
        requires
            self.wf(),
            self.spec_in_bounds(pos),
        ensures
            0 <= self.spec_index(pos) < self.spec_tiles().len(),
    {
        let w = self.spec_width() as int;
        let h = self.spec_height() as int;
        let x = pos.x as int;
        let y = pos.y as int;
        assert(0 <= y * w + x < w * h) by (nonlinear_arith)
            requires
                0 <= x < w,
                0 <= y < h,
        ;
    }

    /// Distinct in-bounds positions have distinct row-major indices.
    pub proof fn lemma_index_injective(self, p: MapPosition, q: MapPosition)
        requires
            self.wf(),
            self.spec_in_bounds(p),
            self.spec_in_bounds(q),
            self.spec_index(p) == self.spec_index(q),
        ensures
            p == q,
    {
        let w = self.spec_width() as int;
        assert(p.y == q.y && p.x == q.x) by (nonlinear_arith)
            requires
                0 <= p.x < w,
                0 <= q.x < w,
                p.y * w + p.x == q.y * w + q.x,
        ;
    }

    /// Distinct in-bounds positions occupy distinct tile slots.
    pub proof fn lemma_index_distinct(self, p: MapPosition, q: MapPosition)
        requires
            self.wf(),
            self.spec_in_bounds(p),
            self.spec_in_bounds(q),
            p != q,
        ensures
            self.spec_index(p) != self.spec_index(q),
    {
        if self.spec_index(p) == self.spec_index(q) {
            self.lemma_index_injective(p, q);
        }
    }

    /// A new map of the given dimensions, filled with walkable floor.
    pub fn new(width: i32, height: i32) -> (r: Self)
        requires
            0 <= width,
            0 <= height,
            width * height <= i32::MAX,
        ensures
            r.wf(),
            r.spec_width() == width,
            r.spec_height() == height,
            forall|p: MapPosition| r.spec_in_bounds(p) ==> #[trigger] r.tile_at(p) == Tile::walkable_tile(),
    {
        let size = (width * height) as usize;
        let mut tiles: Vec<Tile> = Vec::new();
        let mut i: usize = 0;
        while i < size
            invariant
                i <= size,
                tiles@.len() == i,
                forall|k: int| 0 <= k < i ==> tiles@[k] == Tile::walkable_tile(),
            decreases size - i,
        {
            tiles.push(Tile::walkable());
            i = i + 1;
        }
        let r = GameMap { width, height, tiles };
        proof {
            assert forall|p: MapPosition| r.spec_in_bounds(p) implies #[trigger] r.tile_at(p)
                == Tile::walkable_tile() by {
                r.lemma_index_in_range(p);
            }
        }
        r
    }

    /// Assembles a map from parts whose dimensions match the storage.
    pub(crate) fn from_parts(width: i32, height: i32, tiles: Vec<Tile>) -> (r: Self)
        requires
            0 <= width,
            0 <= height,
            width * height == tiles@.len(),
        ensures
            r.wf(),
            r.spec_width() == width,
            r.spec_height() == height,
            r.spec_tiles() == tiles@,
    {
        GameMap { width, height, tiles }
    }

    /// Decides [`GameMap::wf`] at run time.
    pub fn check_wf(&self) -> (r: bool)
        ensures
            r == self.wf(),
    {
        if self.width < 0 || self.height < 0 {
            return false;
        }
        proof {
            let lim: int = 0x8000_0000;
            assert(0 <= (self.width as int) * (self.height as int) < lim * lim)
                by (nonlinear_arith)
                requires
                    0 <= self.width < lim,
                    0 <= self.height < lim,
            ;
        }
        let prod = self.width as u64 * self.height as u64;
        let len = self.tiles.len() as u64;
        prod == len
    }

    pub fn width(&self) -> (r: i32)
        ensures
            r == self.spec_width(),
    {
        self.width
    }

    pub fn height(&self) -> (r: i32)
        ensures
            r == self.spec_height(),
    {
        self.height
    }

    /// Direct read access to the tile storage, for rendering.
    pub fn raw_tiles(&self) -> (r: &[Tile])
        ensures
            r@ == self.spec_tiles(),
    {
        self.tiles.as_slice()
    }

    pub fn in_bounds(&self, pos: MapPosition) -> (r: bool)
        ensures
            r == self.spec_in_bounds(pos),
    {
        pos.x() >= 0 && pos.x() < self.width && pos.y() >= 0 && pos.y() < self.height
    }

    /// Row-major index of an in-bounds position, as a machine integer.
    pub(crate) fn index_of(&self, pos: MapPosition) -> (r: usize)
        requires
            self.wf(),
            self.spec_in_bounds(pos),
        ensures
            r == self.spec_index(pos),
            r < self.spec_tiles().len(),
    {
        proof {
            self.lemma_index_in_range(pos);
            let big: int = 0x4000_0000_0000_0000;
            let lim: int = 0x8000_0000;
            assert(0 <= (pos.y as int) * (self.width as int) < big) by (nonlinear_arith)
                requires
                    0 <= pos.y < lim,
                    0 <= self.width < lim,
                    big == lim * lim,
            ;
        }
        let n = self.tiles.len();
        let idx = pos.y() as i64 * self.width as i64 + pos.x() as i64;
        idx as usize
    }

    /// Row-major index of the position, or absent when out of bounds.
    fn pos_to_index(&self, pos: MapPosition) -> (r: Option<usize>)
        requires
            self.wf(),
        ensures
            self.spec_in_bounds(pos) ==> (r matches Some(i) && i == self.spec_index(pos)
                && i < self.spec_tiles().len()),
            !self.spec_in_bounds(pos) ==> r is None,
    {
        if self.in_bounds(pos) {
            Some(self.index_of(pos))
        } else {
            None
        }
    }

    /// The tile at `pos`, or absent when `pos` is out of bounds.
    pub fn get_tile(&self, pos: MapPosition) -> (r: Option<&Tile>)
        requires
            self.wf(),
        ensures
            self.spec_in_bounds(pos) ==> (r matches Some(t) && *t == self.tile_at(pos)),
            !self.spec_in_bounds(pos) ==> r is None,
    {
        match self.pos_to_index(pos) {
            Some(idx) => Some(&self.tiles[idx]),
            None => None,
        }
    }

    /// Walkable terrain at `pos` (occupancy not considered).
    pub fn is_walkable(&self, pos: MapPosition) -> (r: bool)
        requires
            self.wf(),
        ensures
            r == self.spec_is_walkable(pos),
    {
        match self.get_tile(pos) {
            Some(t) => t.is_walkable(),
            None => false,
        }
    }

    /// Walkable terrain and no occupant at `pos`.
    pub fn is_standable(&self, pos: MapPosition) -> (r: bool)
        requires
            self.wf(),
        ensures
            r == self.spec_is_standable(pos),
    {
        match self.get_tile(pos) {
            Some(t) => t.can_stand(),
            None => false,
        }
    }

    /// Replaces the tile at an in-bounds position.
    ///
    /// Every other tile, and the dimensions, stay unchanged.
    pub fn set_tile(&mut self, pos: MapPosition, tile: Tile)
        requires
            old(self).wf(),
            old(self).spec_in_bounds(pos),
        ensures
            final(self).wf(),
            final(self).spec_width() == old(self).spec_width(),
            final(self).spec_height() == old(self).spec_height(),
            final(self).tile_at(pos) == tile,
            forall|q: MapPosition|
                final(self).spec_in_bounds(q) && q != pos ==> #[trigger] final(self).tile_at(q)
                    == old(self).tile_at(q),
            final(self).spec_tiles().len() == old(self).spec_tiles().len(),
    {
        let idx = self.index_of(pos);
        self.tiles[idx] = tile;
        proof {
            assert forall|q: MapPosition| final(self).spec_in_bounds(q) && q != pos implies
                #[trigger] final(self).tile_at(q) == old(self).tile_at(q) by {
                self.lemma_index_in_range(q);
                if self.spec_index(q) == self.spec_index(pos) {
                    self.lemma_index_injective(q, pos);
                }
            }
        }
    }

    /// Sets or clears the occupant reference of the tile at `pos`.
    pub fn set_entity_at(&mut self, pos: MapPosition, id: Option<u32>)
        requires
            old(self).wf(),
            old(self).spec_in_bounds(pos),
        ensures
            final(self).wf(),
            final(self).spec_width() == old(self).spec_width(),
            final(self).spec_height() == old(self).spec_height(),
            final(self).tile_at(pos) == (Tile { entity_id: id, ..old(self).tile_at(pos) }),
            forall|q: MapPosition|
                final(self).spec_in_bounds(q) && q != pos ==> #[trigger] final(self).tile_at(q)
                    == old(self).tile_at(q),
    {
        let t = *self.get_tile(pos).unwrap();
        self.set_tile(pos, Tile { entity_id: id, ..t });
    }

    /// Removes and returns the powerup waiting on the tile at `pos`.
    pub fn take_powerup_at(&mut self, pos: MapPosition) -> (r: crate::tile::PowerupType)
        requires
            old(self).wf(),
            old(self).spec_in_bounds(pos),
        ensures
            final(self).wf(),
            final(self).spec_width() == old(self).spec_width(),
            final(self).spec_height() == old(self).spec_height(),
            r == old(self).tile_at(pos).powerup,
            final(self).tile_at(pos) == (Tile {
                powerup: crate::tile::PowerupType::NoPowerup,
                ..old(self).tile_at(pos)
            }),
            forall|q: MapPosition|
                final(self).spec_in_bounds(q) && q != pos ==> #[trigger] final(self).tile_at(q)
                    == old(self).tile_at(q),
    {
        let t = *self.get_tile(pos).unwrap();
        self.set_tile(pos, Tile { powerup: crate::tile::PowerupType::NoPowerup, ..t });
        t.powerup()
    }

    /// Sets the powerup waiting on the tile at `pos`.
    pub fn set_powerup_at(&mut self, pos: MapPosition, p: crate::tile::PowerupType)
        requires
            old(self).wf(),
            old(self).spec_in_bounds(pos),
        ensures
            final(self).wf(),
            final(self).spec_width() == old(self).spec_width(),
            final(self).spec_height() == old(self).spec_height(),
            final(self).tile_at(pos) == (Tile { powerup: p, ..old(self).tile_at(pos) }),
            forall|q: MapPosition|
                final(self).spec_in_bounds(q) && q != pos ==> #[trigger] final(self).tile_at(q)
                    == old(self).tile_at(q),
    {
        let t = *self.get_tile(pos).unwrap();
        self.set_tile(pos, Tile { powerup: p, ..t });
    }

    /// Transforms the terrain of the tile at `pos` (see [`Tile::transform`]).
    pub fn transform_at(&mut self, pos: MapPosition, new_type: TileType)
        requires
            old(self).wf(),
            old(self).spec_in_bounds(pos),
        ensures
            final(self).wf(),
            final(self).spec_width() == old(self).spec_width(),
            final(self).spec_height() == old(self).spec_height(),
            final(self).tile_at(pos) == old(self).tile_at(pos).spec_transform(new_type),
            forall|q: MapPosition|
                final(self).spec_in_bounds(q) && q != pos ==> #[trigger] final(self).tile_at(q)
                    == old(self).tile_at(q),
    {
        let mut t = *self.get_tile(pos).unwrap();
        t.transform(new_type);
        self.set_tile(pos, t);
    }

    /// Turns a walkable tile into a wall; returns whether it did.
    ///
    /// Fails (returns `false`, changing nothing) when `pos` is out of
    /// bounds or the tile is already solid.
    pub fn build_wall(&mut self, pos: MapPosition) -> (r: bool)
        requires
            old(self).wf(),
        ensures
            final(self).wf(),
            final(self).spec_width() == old(self).spec_width(),
            final(self).spec_height() == old(self).spec_height(),
            r == old(self).spec_is_walkable(pos),
            !r ==> *final(self) == *old(self),
            r ==> final(self).tile_at(pos) == old(self).tile_at(pos).spec_transform(TileType::Wall),
            r ==> forall|q: MapPosition|
                final(self).spec_in_bounds(q) && q != pos ==> #[trigger] final(self).tile_at(q)
                    == old(self).tile_at(q),
    {
        if self.is_walkable(pos) {
            self.transform_at(pos, TileType::Wall);
            true
        } else {
            false
        }
    }
}

impl Tile {
    /// The value produced by [`Tile::walkable`], for use in contracts.
    pub open spec fn walkable_tile() -> Tile {
        Tile {
            tile_type: TileType::WalkableGeneric,
            symbol: crate::tile::spec_glyph(TileType::WalkableGeneric),
            entity_id: None,
            powerup: crate::tile::PowerupType::NoPowerup,
        }
    }
}

} // verus!
