//! The persisted snapshot: a self-describing word stream that encodes
//! the full world — map dimensions, every tile, every entity, the id
//! counter and the active team — and decodes back to it exactly.
//!
//! The shell only moves the words to and from durable storage.

use vstd::prelude::*;
use vstd::string::StrSliceExecFns;
use crate::entity::Entity;
use crate::grid::GameMap;
use crate::position::MapPosition;
use crate::tile::{PowerupType, Tile, TileType};
use crate::world::WorldState;

verus! {

/// The persistence-relevant content of an entity, with the name as a
/// character sequence.
pub struct EntityModel {
    pub id: u32,
    pub symbol: char,
    pub name: Seq<char>,
    pub team: u32,
    pub max_health: u32,
    pub health: u32,
    pub max_energy: u32,
    pub energy: u32,
    pub damage: u32,
    pub attack_range: u32,
    pub position: MapPosition,
    pub stunned_for_turns: u32,
    pub is_selected: bool,
    pub is_ai: bool,
}

/// The persistence-relevant content of a world.
pub struct WorldModel {
    pub width: i32,
    pub height: i32,
    pub tiles: Seq<Tile>,
    pub entities: Seq<EntityModel>,
    pub next_entity_id: u32,
    pub current_team_turn: u32,
}

impl Entity {
    /// This entity's persistence-relevant content.
    pub open spec fn model(self) -> EntityModel {
        EntityModel {
            id: self.id,
            symbol: self.symbol,
            name: self.name@,
            team: self.team,
            max_health: self.max_health,
            health: self.health,
            max_energy: self.max_energy,
            energy: self.energy,
            damage: self.damage,
            attack_range: self.attack_range,
            position: self.position,
            stunned_for_turns: self.stunned_for_turns,
            is_selected: self.is_selected,
            is_ai: self.is_ai,
        }
    }
}

/// The models of a sequence of entities, in order.
pub open spec fn models_of(es: Seq<Entity>) -> Seq<EntityModel> {
    Seq::new(es.len(), |i: int| es[i].model())
}

impl WorldState {
    /// This world's persistence-relevant content.
    pub open spec fn model(self) -> WorldModel {
        WorldModel {
            width: self.map.spec_width(),
            height: self.map.spec_height(),
            tiles: self.map.spec_tiles(),
            entities: models_of(self.entities@),
            next_entity_id: self.next_entity_id,
            current_team_turn: self.current_team_turn,
        }
    }
}

/// A signed coordinate as a word, shifted to be non-negative.
pub open spec fn word_of_i32(x: i32) -> u32 {
    (x + 0x8000_0000) as u32
}

/// The coordinate a word stands for.
pub open spec fn i32_of_word(w: u32) -> i32 {
    (w - 0x8000_0000) as i32
}

pub open spec fn word_of_bool(b: bool) -> u32 {
    if b {
        1u32
    } else {
        0u32
    }
}

/// A valid Unicode scalar value: what a `char` may hold.
pub open spec fn valid_scalar(w: u32) -> bool {
    w < 0xD800 || (0xE000 <= w && w <= 0x10FFFF)
}

pub open spec fn enc_tile(t: Tile) -> Seq<u32> {
    let ty: u32 = if t.tile_type == TileType::Wall {
        1
    } else {
        0
    };
    let ent: Seq<u32> = match t.entity_id {
        Some(id) => seq![1u32, id],
        None => seq![0u32, 0u32],
    };
    seq![ty, t.symbol as u32] + ent + seq![t.powerup.spec_to_id() as u32]
}

pub open spec fn enc_tiles(ts: Seq<Tile>) -> Seq<u32>
    decreases ts.len(),
{
    if ts.len() == 0 {
        Seq::empty()
    } else {
        enc_tiles(ts.drop_last()) + enc_tile(ts.last())
    }
}

pub open spec fn enc_chars(s: Seq<char>) -> Seq<u32>
    decreases s.len(),
{
    if s.len() == 0 {
        Seq::empty()
    } else {
        enc_chars(s.drop_last()) + seq![s.last() as u32]
    }
}

pub open spec fn enc_entity(e: EntityModel) -> Seq<u32> {
    seq![
        e.id,
        e.team,
        e.max_health,
        e.health,
        e.max_energy,
        e.energy,
        e.damage,
        e.attack_range,
        word_of_i32(e.position.x),
        word_of_i32(e.position.y),
        e.stunned_for_turns,
        word_of_bool(e.is_selected),
        word_of_bool(e.is_ai),
        e.symbol as u32,
        e.name.len() as u32,
    ] + enc_chars(e.name)
}

pub open spec fn enc_entities(es: Seq<EntityModel>) -> Seq<u32>
    decreases es.len(),
{
    if es.len() == 0 {
        Seq::empty()
    } else {
        enc_entities(es.drop_last()) + enc_entity(es.last())
    }
}

/// The snapshot encoding of a world model.
pub open spec fn enc_world(m: WorldModel) -> Seq<u32> {
    seq![word_of_i32(m.width), word_of_i32(m.height)] + enc_tiles(m.tiles) + seq![
        m.entities.len() as u32,
    ] + enc_entities(m.entities) + seq![m.next_entity_id, m.current_team_turn]
}

// ---------------------------------------------------------------------
// The decoder's mathematical mirror: each `sd_*` reads one component at
// a cursor and yields the value with the cursor after it, or nothing.
// ---------------------------------------------------------------------

pub open spec fn sd_u32(s: Seq<u32>, pos: int) -> Option<(u32, int)> {
    if 0 <= pos < s.len() {
        Some((s[pos], pos + 1))
    } else {
        None
    }
}

pub open spec fn sd_i32(s: Seq<u32>, pos: int) -> Option<(i32, int)> {
    match sd_u32(s, pos) {
        Some((w, p)) => Some((i32_of_word(w), p)),
        None => None,
    }
}

pub open spec fn sd_bool(s: Seq<u32>, pos: int) -> Option<(bool, int)> {
    match sd_u32(s, pos) {
        Some((w, p)) => if w == 0 {
            Some((false, p))
        } else if w == 1 {
            Some((true, p))
        } else {
            None
        },
        None => None,
    }
}

pub open spec fn sd_char(s: Seq<u32>, pos: int) -> Option<(char, int)> {
    match sd_u32(s, pos) {
        Some((w, p)) => if valid_scalar(w) {
            Some((w as char, p))
        } else {
            None
        },
        None => None,
    }
}

pub open spec fn sd_opt_u32(s: Seq<u32>, pos: int) -> Option<(Option<u32>, int)> {
    match sd_u32(s, pos) {
        Some((tag, p1)) => match sd_u32(s, p1) {
            Some((v, p2)) => if tag == 0 {
                Some((None, p2))
            } else if tag == 1 {
                Some((Some(v), p2))
            } else {
                None
            },
            None => None,
        },
        None => None,
    }
}

pub open spec fn sd_tile(s: Seq<u32>, pos: int) -> Option<(Tile, int)> {
    match sd_u32(s, pos) {
        Some((ty, p1)) => if ty > 1 {
            None
        } else {
            match sd_char(s, p1) {
                Some((sym, p2)) => match sd_opt_u32(s, p2) {
                    Some((ent, p3)) => match sd_u32(s, p3) {
                        Some((pw, p4)) => match PowerupType::spec_from_id(pw) {
                            Some(powerup) => Some(
                                (
                                    Tile {
                                        tile_type: if ty == 1 {
                                            TileType::Wall
                                        } else {
                                            TileType::WalkableGeneric
                                        },
                                        symbol: sym,
                                        entity_id: ent,
                                        powerup,
                                    },
                                    p4,
                                ),
                            ),
                            None => None,
                        },
                        None => None,
                    },
                    None => None,
                },
                None => None,
            }
        },
        None => None,
    }
}

pub open spec fn sd_tiles(s: Seq<u32>, pos: int, n: nat) -> Option<(Seq<Tile>, int)>
    decreases n,
{
    if n == 0 {
        Some((Seq::empty(), pos))
    } else {
        match sd_tile(s, pos) {
            Some((t, p1)) => match sd_tiles(s, p1, (n - 1) as nat) {
                Some((rest, p2)) => Some((seq![t] + rest, p2)),
                None => None,
            },
            None => None,
        }
    }
}

pub open spec fn sd_chars(s: Seq<u32>, pos: int, n: nat) -> Option<(Seq<char>, int)>
    decreases n,
{
    if n == 0 {
        Some((Seq::empty(), pos))
    } else {
        match sd_char(s, pos) {
            Some((c, p1)) => match sd_chars(s, p1, (n - 1) as nat) {
                Some((rest, p2)) => Some((seq![c] + rest, p2)),
                None => None,
            },
            None => None,
        }
    }
}

pub open spec fn sd_entity(s: Seq<u32>, pos: int) -> Option<(EntityModel, int)> {
    match sd_u32(s, pos) {
        Some((id, p1)) => match sd_u32(s, p1) {
            Some((team, p2)) => match sd_u32(s, p2) {
                Some((max_health, p3)) => match sd_u32(s, p3) {
                    Some((health, p4)) => match sd_u32(s, p4) {
                        Some((max_energy, p5)) => match sd_u32(s, p5) {
                            Some((energy, p6)) => match sd_u32(s, p6) {
                                Some((damage, p7)) => match sd_u32(s, p7) {
                                    Some((attack_range, p8)) => match sd_i32(s, p8) {
                                        Some((x, p9)) => match sd_i32(s, p9) {
                                            Some((y, p10)) => match sd_u32(s, p10) {
                                                Some((stun, p11)) => match sd_bool(s, p11) {
                                                    Some((sel, p12)) => match sd_bool(s, p12) {
                                                        Some((ai, p13)) => match sd_char(s, p13) {
                                                            Some((sym, p14)) => match sd_u32(
                                                                s,
                                                                p14,
                                                            ) {
                                                                Some((nlen, p15)) => match sd_chars(
                                                                    s,
                                                                    p15,
                                                                    nlen as nat,
                                                                ) {
                                                                    Some((name, p16)) => Some(
                                                                        (
                                                                            EntityModel {
                                                                                id,
                                                                                symbol: sym,
                                                                                name,
                                                                                team,
                                                                                max_health,
                                                                                health,
                                                                                max_energy,
                                                                                energy,
                                                                                damage,
                                                                                attack_range,
                                                                                position:
                                                                                    MapPosition {
                                                                                    x,
                                                                                    y,
                                                                                },
                                                                                stunned_for_turns:
                                                                                    stun,
                                                                                is_selected: sel,
                                                                                is_ai: ai,
                                                                            },
                                                                            p16,
                                                                        ),
                                                                    ),
                                                                    None => None,
                                                                },
                                                                None => None,
                                                            },
                                                            None => None,
                                                        },
                                                        None => None,
                                                    },
                                                    None => None,
                                                },
                                                None => None,
                                            },
                                            None => None,
                                        },
                                        None => None,
                                    },
                                    None => None,
                                },
                                None => None,
                            },
                            None => None,
                        },
                        None => None,
                    },
                    None => None,
                },
                None => None,
            },
            None => None,
        },
        None => None,
    }
}

pub open spec fn sd_entities(s: Seq<u32>, pos: int, n: nat) -> Option<(Seq<EntityModel>, int)>
    decreases n,
{
    if n == 0 {
        Some((Seq::empty(), pos))
    } else {
        match sd_entity(s, pos) {
            Some((e, p1)) => match sd_entities(s, p1, (n - 1) as nat) {
                Some((rest, p2)) => Some((seq![e] + rest, p2)),
                None => None,
            },
            None => None,
        }
    }
}

/// The world model a snapshot denotes, when the stream is exactly one
/// well-shaped snapshot with credible dimensions.
pub open spec fn sd_world(s: Seq<u32>) -> Option<WorldModel> {
    match sd_i32(s, 0) {
        Some((width, p1)) => match sd_i32(s, p1) {
            Some((height, p2)) => if width < 0 || height < 0 || width * height > 0x7fff_ffff {
                None
            } else {
                match sd_tiles(s, p2, (width * height) as nat) {
                    Some((tiles, p3)) => match sd_u32(s, p3) {
                        Some((count, p4)) => match sd_entities(s, p4, count as nat) {
                            Some((entities, p5)) => match sd_u32(s, p5) {
                                Some((next_entity_id, p6)) => match sd_u32(s, p6) {
                                    Some((current_team_turn, p7)) => if p7 == s.len() {
                                        Some(
                                            WorldModel {
                                                width,
                                                height,
                                                tiles,
                                                entities,
                                                next_entity_id,
                                                current_team_turn,
                                            },
                                        )
                                    } else {
                                        None
                                    },
                                    None => None,
                                },
                                None => None,
                            },
                            None => None,
                        },
                        None => None,
                    },
                    None => None,
                }
            },
            None => None,
        },
        None => None,
    }
}

// ---------------------------------------------------------------------
// Trusted bridges to std, for characters and string building.
// ---------------------------------------------------------------------


// ---------------------------------------------------------------------
// The round-trip law: decoding an encoded world yields it back.
// ---------------------------------------------------------------------

/// `part` sits in `s` starting at `pos`.
pub open spec fn at_offset(s: Seq<u32>, pos: int, part: Seq<u32>) -> bool {
    &&& 0 <= pos
    &&& pos + part.len() <= s.len()
    &&& s.subrange(pos, pos + part.len()) == part
}

/// Every character of the sequence is a genuine Unicode scalar value;
/// true of the view of any real string.
pub open spec fn chars_ok(cs: Seq<char>) -> bool {
    forall|i: int|
        0 <= i < cs.len() ==> valid_scalar((#[trigger] cs[i]) as u32) && ((cs[i] as u32) as char)
            == cs[i]
}

proof fn lemma_enc_chars_len(cs: Seq<char>)
    ensures
        enc_chars(cs).len() == cs.len(),
    decreases cs.len(),
{
    if cs.len() > 0 {
        lemma_enc_chars_len(cs.drop_last());
    }
}

proof fn lemma_enc_chars_first(cs: Seq<char>)
    requires
        cs.len() > 0,
    ensures
        enc_chars(cs) == seq![cs[0] as u32] + enc_chars(cs.drop_first()),
    decreases cs.len(),
{
    if cs.len() == 1 {
        assert(cs.drop_last() =~= Seq::<char>::empty());
        assert(cs.drop_first() =~= Seq::<char>::empty());
        assert(enc_chars(cs) =~= seq![cs[0] as u32] + enc_chars(cs.drop_first()));
    } else {
        let head = cs.drop_last();
        lemma_enc_chars_first(head);
        assert(cs.drop_first().drop_last() =~= head.drop_first());
        assert(cs.drop_first().last() == cs.last());
        assert(enc_chars(cs) =~= seq![cs[0] as u32] + enc_chars(cs.drop_first()));
    }
}

proof fn lemma_enc_tiles_first(ts: Seq<Tile>)
    requires
        ts.len() > 0,
    ensures
        enc_tiles(ts) == enc_tile(ts[0]) + enc_tiles(ts.drop_first()),
    decreases ts.len(),
{
    if ts.len() == 1 {
        assert(ts.drop_last() =~= Seq::<Tile>::empty());
        assert(ts.drop_first() =~= Seq::<Tile>::empty());
        assert(enc_tiles(ts) =~= enc_tile(ts[0]) + enc_tiles(ts.drop_first()));
    } else {
        let head = ts.drop_last();
        lemma_enc_tiles_first(head);
        assert(ts.drop_first().drop_last() =~= head.drop_first());
        assert(ts.drop_first().last() == ts.last());
        assert(enc_tiles(ts) =~= enc_tile(ts[0]) + enc_tiles(ts.drop_first()));
    }
}

proof fn lemma_enc_entities_first(es: Seq<EntityModel>)
    requires
        es.len() > 0,
    ensures
        enc_entities(es) == enc_entity(es[0]) + enc_entities(es.drop_first()),
    decreases es.len(),
{
    if es.len() == 1 {
        assert(es.drop_last() =~= Seq::<EntityModel>::empty());
        assert(es.drop_first() =~= Seq::<EntityModel>::empty());
        assert(enc_entities(es) =~= enc_entity(es[0]) + enc_entities(es.drop_first()));
    } else {
        let head = es.drop_last();
        lemma_enc_entities_first(head);
        assert(es.drop_first().drop_last() =~= head.drop_first());
        assert(es.drop_first().last() == es.last());
        assert(enc_entities(es) =~= enc_entity(es[0]) + enc_entities(es.drop_first()));
    }
}

proof fn lemma_sd_tile_of_enc(s: Seq<u32>, pos: int, t: Tile)
    requires
        at_offset(s, pos, enc_tile(t)),
    ensures
        sd_tile(s, pos) == Some((t, pos + 5)),
{
    let ty: u32 = if t.tile_type == TileType::Wall {
        1
    } else {
        0
    };
    let ent: Seq<u32> = match t.entity_id {
        Some(id) => seq![1u32, id],
        None => seq![0u32, 0u32],
    };
    let pww: u32 = t.powerup.spec_to_id() as u32;
    let whole = enc_tile(t);
    assert(whole == seq![ty, t.symbol as u32] + ent + seq![pww]);
    assert(whole.len() == 5);
    assert forall|i: int| 0 <= i < 5 implies s[pos + i] == whole[i] by {
        assert(s.subrange(pos, pos + 5)[i] == s[pos + i]);
    }
    assert(whole[0] == ty);
    assert(whole[1] == t.symbol as u32);
    assert(whole[2] == ent[0]);
    assert(whole[3] == ent[1]);
    assert(whole[4] == pww);
    assert(valid_scalar(t.symbol as u32));
    assert(((t.symbol as u32) as char) == t.symbol);
    assert(PowerupType::spec_from_id(pww) == Some(t.powerup));
    match t.entity_id {
        Some(id) => {
            assert(ent[0] == 1u32 && ent[1] == id);
            assert(sd_opt_u32(s, pos + 2) == Some((Some(id), pos + 4)));
        },
        None => {
            assert(ent[0] == 0u32 && ent[1] == 0u32);
            assert(sd_opt_u32(s, pos + 2) == Some((None::<u32>, pos + 4)));
        },
    }
    if t.tile_type == TileType::Wall {
        assert(sd_tile(s, pos) == Some((t, pos + 5)));
    } else {
        assert(t.tile_type == TileType::WalkableGeneric);
        assert(sd_tile(s, pos) == Some((t, pos + 5)));
    }
}

proof fn lemma_sd_chars_of_enc(s: Seq<u32>, pos: int, cs: Seq<char>)
    requires
        at_offset(s, pos, enc_chars(cs)),
        chars_ok(cs),
    ensures
        sd_chars(s, pos, cs.len()) == Some((cs, pos + cs.len())),
    decreases cs.len(),
{
    lemma_enc_chars_len(cs);
    if cs.len() == 0 {
        assert(sd_chars(s, pos, 0) == Some((Seq::<char>::empty(), pos)));
        assert(cs =~= Seq::<char>::empty());
    } else {
        lemma_enc_chars_first(cs);
        let tail = cs.drop_first();
        lemma_enc_chars_len(tail);
        assert(s.subrange(pos, pos + cs.len())[0] == s[pos]);
        assert(s[pos] == cs[0] as u32);
        assert(valid_scalar(cs[0] as u32));
        assert(((cs[0] as u32) as char) == cs[0]);
        assert(sd_char(s, pos) == Some((cs[0], pos + 1)));
        assert(s.subrange(pos + 1, pos + 1 + tail.len()) =~= enc_chars(tail)) by {
            assert forall|i: int| 0 <= i < tail.len() implies s.subrange(
                pos + 1,
                pos + 1 + tail.len(),
            )[i] == enc_chars(tail)[i] by {
                assert(s.subrange(pos, pos + cs.len())[i + 1] == s[pos + 1 + i]);
                assert(enc_chars(cs)[i + 1] == (seq![cs[0] as u32] + enc_chars(tail))[i + 1]);
            }
        }
        assert forall|i: int| 0 <= i < tail.len() implies valid_scalar(
            (#[trigger] tail[i]) as u32,
        ) by {
            assert(tail[i] == cs[i + 1]);
        }
        lemma_sd_chars_of_enc(s, pos + 1, tail);
        assert(seq![cs[0]] + tail =~= cs);
    }
}

proof fn lemma_sd_tiles_of_enc(s: Seq<u32>, pos: int, ts: Seq<Tile>)
    requires
        at_offset(s, pos, enc_tiles(ts)),
    ensures
        sd_tiles(s, pos, ts.len()) == Some((ts, pos + enc_tiles(ts).len())),
    decreases ts.len(),
{
    if ts.len() == 0 {
        assert(ts =~= Seq::<Tile>::empty());
    } else {
        lemma_enc_tiles_first(ts);
        let tail = ts.drop_first();
        let whole = enc_tiles(ts);
        let first = enc_tile(ts[0]);
        let rest = enc_tiles(tail);
        assert(whole.len() == 5 + rest.len());
        assert(s.subrange(pos, pos + 5) =~= first) by {
            assert forall|i: int| 0 <= i < 5 implies s.subrange(pos, pos + 5)[i] == first[i] by {
                assert(s.subrange(pos, pos + whole.len())[i] == s[pos + i]);
                assert(whole[i] == (first + rest)[i]);
            }
        }
        lemma_sd_tile_of_enc(s, pos, ts[0]);
        assert(s.subrange(pos + 5, pos + 5 + rest.len()) =~= rest) by {
            assert forall|i: int| 0 <= i < rest.len() implies s.subrange(
                pos + 5,
                pos + 5 + rest.len(),
            )[i] == rest[i] by {
                assert(s.subrange(pos, pos + whole.len())[i + 5] == s[pos + 5 + i]);
                assert(whole[i + 5] == (first + rest)[i + 5]);
            }
        }
        lemma_sd_tiles_of_enc(s, pos + 5, tail);
        assert(seq![ts[0]] + tail =~= ts);
    }
}

#[verifier::rlimit(60)]
proof fn lemma_sd_entity_of_enc(s: Seq<u32>, pos: int, e: EntityModel)
    requires
        at_offset(s, pos, enc_entity(e)),
        e.name.len() <= u32::MAX,
        chars_ok(e.name),
    ensures
        sd_entity(s, pos) == Some((e, pos + enc_entity(e).len())),
{
    let whole = enc_entity(e);
    let name_words = enc_chars(e.name);
    let lit: Seq<u32> = seq![
        e.id,
        e.team,
        e.max_health,
        e.health,
        e.max_energy,
        e.energy,
        e.damage,
        e.attack_range,
        word_of_i32(e.position.x),
        word_of_i32(e.position.y),
        e.stunned_for_turns,
        word_of_bool(e.is_selected),
        word_of_bool(e.is_ai),
        e.symbol as u32,
        e.name.len() as u32,
    ];
    assert(whole == lit + name_words);
    lemma_enc_chars_len(e.name);
    assert(whole.len() == 15 + e.name.len());
    assert forall|i: int| 0 <= i < 15 implies s[pos + i] == whole[i] by {
        assert(s.subrange(pos, pos + whole.len())[i] == s[pos + i]);
    }
    assert forall|i: int| 0 <= i < 15 implies whole[i] == lit[i] by {
        assert((lit + name_words)[i] == lit[i]);
    }
    assert(valid_scalar(e.symbol as u32));
    assert(i32_of_word(word_of_i32(e.position.x)) == e.position.x);
    assert(i32_of_word(word_of_i32(e.position.y)) == e.position.y);
    assert(s.subrange(pos + 15, pos + 15 + name_words.len()) =~= name_words) by {
        assert forall|i: int| 0 <= i < name_words.len() implies s.subrange(
            pos + 15,
            pos + 15 + name_words.len(),
        )[i] == name_words[i] by {
            assert(s.subrange(pos, pos + whole.len())[i + 15] == s[pos + 15 + i]);
        }
    }
    lemma_sd_chars_of_enc(s, pos + 15, e.name);
    assert(s[pos + 14] == e.name.len() as u32);
    assert((e.name.len() as u32) as nat == e.name.len());
    assert(e.position == (MapPosition { x: e.position.x, y: e.position.y }));
    assert(sd_entity(s, pos) == Some(
        (
            EntityModel {
                id: e.id,
                symbol: e.symbol,
                name: e.name,
                team: e.team,
                max_health: e.max_health,
                health: e.health,
                max_energy: e.max_energy,
                energy: e.energy,
                damage: e.damage,
                attack_range: e.attack_range,
                position: e.position,
                stunned_for_turns: e.stunned_for_turns,
                is_selected: e.is_selected,
                is_ai: e.is_ai,
            },
            pos + whole.len(),
        ),
    ));
}

proof fn lemma_sd_entities_of_enc(s: Seq<u32>, pos: int, es: Seq<EntityModel>)
    requires
        at_offset(s, pos, enc_entities(es)),
        forall|i: int|
            0 <= i < es.len() ==> (#[trigger] es[i]).name.len() <= u32::MAX && chars_ok(
                es[i].name,
            ),
    ensures
        sd_entities(s, pos, es.len()) == Some((es, pos + enc_entities(es).len())),
    decreases es.len(),
{
    if es.len() == 0 {
        assert(es =~= Seq::<EntityModel>::empty());
    } else {
        lemma_enc_entities_first(es);
        let tail = es.drop_first();
        let whole = enc_entities(es);
        let first = enc_entity(es[0]);
        let rest = enc_entities(tail);
        assert(whole.len() == first.len() + rest.len());
        assert(s.subrange(pos, pos + first.len()) =~= first) by {
            assert forall|i: int| 0 <= i < first.len() implies s.subrange(
                pos,
                pos + first.len(),
            )[i] == first[i] by {
                assert(s.subrange(pos, pos + whole.len())[i] == s[pos + i]);
                assert(whole[i] == (first + rest)[i]);
            }
        }
        lemma_sd_entity_of_enc(s, pos, es[0]);
        let mid = pos + first.len();
        assert(s.subrange(mid, mid + rest.len()) =~= rest) by {
            assert forall|i: int| 0 <= i < rest.len() implies s.subrange(mid, mid + rest.len())[i]
                == rest[i] by {
                assert(s.subrange(pos, pos + whole.len())[i + first.len()] == s[pos + first.len()
                    + i]);
                assert(whole[i + first.len()] == (first + rest)[i + first.len()]);
            }
        }
        assert forall|i: int| 0 <= i < tail.len() implies (#[trigger] tail[i]).name.len()
            <= u32::MAX && chars_ok(tail[i].name) by {
            assert(tail[i] == es[i + 1]);
        }
        lemma_sd_entities_of_enc(s, mid, tail);
        assert(seq![es[0]] + tail =~= es);
    }
}

/// The persistence round trip: decoding an encoded world model yields
/// exactly that model. Together with the contracts of
/// [`WorldState::to_snapshot`] and [`world_from_snapshot`], loading a
/// saved well-formed world reproduces every tile, entity and counter.
#[verifier::rlimit(60)]
pub proof fn lemma_snapshot_round_trip(m: WorldModel)
    requires
        0 <= m.width,
        0 <= m.height,
        m.width * m.height == m.tiles.len(),
        m.width * m.height <= 0x7fff_ffff,
        m.entities.len() <= u32::MAX,
        forall|i: int|
            0 <= i < m.entities.len() ==> (#[trigger] m.entities[i]).name.len() <= u32::MAX
                && chars_ok(m.entities[i].name),
    ensures
        sd_world(enc_world(m)) == Some(m),
{
    let s = enc_world(m);
    let tiles_words = enc_tiles(m.tiles);
    let ents_words = enc_entities(m.entities);
    let head: Seq<u32> = seq![word_of_i32(m.width), word_of_i32(m.height)];
    let cnt: Seq<u32> = seq![m.entities.len() as u32];
    let tail: Seq<u32> = seq![m.next_entity_id, m.current_team_turn];
    assert(s == head + tiles_words + cnt + ents_words + tail);
    let p2: int = 2;
    let p3 = p2 + tiles_words.len();
    let p4 = p3 + 1;
    let p5 = p4 + ents_words.len();
    assert(s.len() == p5 + 2);
    assert(s[0] == word_of_i32(m.width) && s[1] == word_of_i32(m.height)) by {
        assert((head + tiles_words + cnt + ents_words + tail)[0] == head[0]);
        assert((head + tiles_words + cnt + ents_words + tail)[1] == head[1]);
    }
    assert(i32_of_word(word_of_i32(m.width)) == m.width);
    assert(i32_of_word(word_of_i32(m.height)) == m.height);
    assert forall|i: int| 0 <= i < tiles_words.len() implies s[p2 + i] == tiles_words[i] by {
        assert((head + tiles_words + cnt + ents_words + tail)[p2 + i] == tiles_words[i]);
    }
    assert(s.subrange(p2, p2 + tiles_words.len()) =~= tiles_words);
    lemma_sd_tiles_of_enc(s, p2, m.tiles);
    assert(m.tiles.len() == (m.width * m.height) as nat);
    assert(s[p3] == m.entities.len() as u32) by {
        assert((head + tiles_words + cnt + ents_words + tail)[p3] == cnt[0]);
    }
    assert forall|i: int| 0 <= i < ents_words.len() implies s[p4 + i] == ents_words[i] by {
        assert((head + tiles_words + cnt + ents_words + tail)[p4 + i] == ents_words[i]);
    }
    assert(s.subrange(p4, p4 + ents_words.len()) =~= ents_words);
    lemma_sd_entities_of_enc(s, p4, m.entities);
    assert((m.entities.len() as u32) as nat == m.entities.len());
    assert(s[p5] == m.next_entity_id && s[p5 + 1] == m.current_team_turn) by {
        assert((head + tiles_words + cnt + ents_words + tail)[p5] == tail[0]);
        assert((head + tiles_words + cnt + ents_words + tail)[p5 + 1] == tail[1]);
    }
    assert(sd_world(s) == Some(
        (WorldModel {
            width: m.width,
            height: m.height,
            tiles: m.tiles,
            entities: m.entities,
            next_entity_id: m.next_entity_id,
            current_team_turn: m.current_team_turn,
        }),
    ));
    assert(m == (WorldModel {
        width: m.width,
        height: m.height,
        tiles: m.tiles,
        entities: m.entities,
        next_entity_id: m.next_entity_id,
        current_team_turn: m.current_team_turn,
    }));
}


/// Relies on `char::from_u32`: yields the character with this code
/// point; absent exactly for surrogate code points and values above the
/// Unicode maximum.
#[verifier::external_body]
fn char_from_u32(code: u32) -> (r: Option<char>)
    ensures
        r matches Some(c) ==> c as u32 == code && c == code as char,
        r is Some <==> valid_scalar(code),
{
    char::from_u32(code)
}

/// Relies on `String::push`: appends the character to the string.
#[verifier::external_body]
fn push_char(s: &mut String, c: char)
    ensures
        final(s)@ == old(s)@.push(c),
{
    s.push(c);
}

// ---------------------------------------------------------------------
// The executable encoder.
// ---------------------------------------------------------------------

fn word_from_i32(x: i32) -> (r: u32)
    ensures
        r == word_of_i32(x),
{
    ((x as i64) + 0x8000_0000i64) as u32
}

fn i32_from_word(w: u32) -> (r: i32)
    ensures
        r == i32_of_word(w),
{
    ((w as i64) - 0x8000_0000i64) as i32
}

/// Appends one tile's encoding.
fn push_tile(out: &mut Vec<u32>, t: &Tile)
    ensures
        final(out)@ == old(out)@ + enc_tile(*t),
{
    out.push(if t.is_solid() { 1 } else { 0 });
    out.push(t.symbol() as u32);
    match t.entity_id() {
        Some(id) => {
            out.push(1);
            out.push(id);
        },
        None => {
            out.push(0);
            out.push(0);
        },
    }
    out.push(t.powerup().to_id() as u32);
    proof {
        assert(final(out)@ =~= old(out)@ + enc_tile(*t));
    }
}

/// Appends one entity's encoding.
fn push_entity(out: &mut Vec<u32>, e: &Entity)
    requires
        e.name@.len() <= u32::MAX,
    ensures
        final(out)@ == old(out)@ + enc_entity(e.model()),
{
    out.push(e.id);
    out.push(e.team);
    out.push(e.max_health);
    out.push(e.health);
    out.push(e.max_energy);
    out.push(e.energy);
    out.push(e.damage);
    out.push(e.attack_range);
    let xw = word_from_i32(e.position.x);
    let yw = word_from_i32(e.position.y);
    out.push(xw);
    out.push(yw);
    out.push(e.stunned_for_turns);
    out.push(if e.is_selected { 1 } else { 0 });
    out.push(if e.is_ai { 1 } else { 0 });
    out.push(e.symbol as u32);
    let nlen = e.name.as_str().unicode_len();
    out.push(nlen as u32);
    let ghost head = out@;
    let mut i: usize = 0;
    while i < nlen
        invariant
            i <= nlen,
            nlen == e.name@.len(),
            out@ == head + enc_chars(e.name@.subrange(0, i as int)),
        decreases nlen - i,
    {
        let c = e.name.as_str().get_char(i);
        out.push(c as u32);
        proof {
            let pre = e.name@.subrange(0, i + 1 as int);
            assert(pre.drop_last() =~= e.name@.subrange(0, i as int));
            assert(pre.last() == e.name@[i as int]);
            assert(out@ =~= head + enc_chars(pre));
        }
        i = i + 1;
    }
    proof {
        assert(e.name@.subrange(0, nlen as int) =~= e.name@);
        assert(final(out)@ =~= old(out)@ + enc_entity(e.model()));
    }
}

impl WorldState {
    /// Encodes the world as a snapshot word stream.
    ///
    /// The machine limits: the entity count and each name's length must
    /// fit the format's 32-bit count fields.
    pub fn to_snapshot(&self) -> (r: Vec<u32>)
        requires
            self.wf(),
            self.entities@.len() <= u32::MAX,
            forall|i: int|
                0 <= i < self.entities@.len() ==> (#[trigger] self.entities@[i]).name@.len()
                    <= u32::MAX,
        ensures
            r@ == enc_world(self.model()),
    {
        let mut out: Vec<u32> = Vec::new();
        let ww = word_from_i32(self.map.width());
        let hw = word_from_i32(self.map.height());
        out.push(ww);
        out.push(hw);
        let ghost head = out@;
        let raw = self.map.raw_tiles();
        let tn = raw.len();
        let mut k: usize = 0;
        while k < tn
            invariant
                k <= tn,
                tn == self.map.spec_tiles().len(),
                raw@ == self.map.spec_tiles(),
                out@ == head + enc_tiles(self.map.spec_tiles().subrange(0, k as int)),
            decreases tn - k,
        {
            let t = raw[k];
            push_tile(&mut out, &t);
            proof {
                let pre = self.map.spec_tiles().subrange(0, k + 1 as int);
                assert(pre.drop_last() =~= self.map.spec_tiles().subrange(0, k as int));
                assert(pre.last() == self.map.spec_tiles()[k as int]);
                assert(out@ =~= head + enc_tiles(pre));
            }
            k = k + 1;
        }
        proof {
            assert(self.map.spec_tiles().subrange(0, tn as int) =~= self.map.spec_tiles());
        }
        let en = self.entities.len();
        out.push(en as u32);
        let ghost head2 = out@;
        let mut a: usize = 0;
        while a < en
            invariant
                a <= en,
                en == self.entities@.len(),
                forall|i: int|
                    0 <= i < self.entities@.len() ==> (#[trigger] self.entities@[i]).name@.len()
                        <= u32::MAX,
                out@ == head2 + enc_entities(models_of(self.entities@).subrange(0, a as int)),
            decreases en - a,
        {
            let e = &self.entities[a];
            push_entity(&mut out, e);
            proof {
                let ms = models_of(self.entities@);
                let pre = ms.subrange(0, a + 1 as int);
                assert(pre.drop_last() =~= ms.subrange(0, a as int));
                assert(pre.last() == self.entities@[a as int].model());
                assert(out@ =~= head2 + enc_entities(pre));
            }
            a = a + 1;
        }
        out.push(self.next_entity_id);
        out.push(self.current_team_turn);
        proof {
            assert(models_of(self.entities@).subrange(0, en as int) =~= models_of(
                self.entities@,
            ));
            assert(out@ =~= enc_world(self.model()));
        }
        out
    }
}

// ---------------------------------------------------------------------
// The executable decoder, mirroring the `sd_*` functions exactly.
// ---------------------------------------------------------------------

fn read_u32(words: &Vec<u32>, pos: usize) -> (r: Option<(u32, usize)>)
    ensures
        r matches Some((v, p)) ==> sd_u32(words@, pos as int) == Some((v, p as int)) && pos < p
            <= words@.len(),
        r is None ==> sd_u32(words@, pos as int) is None,
{
    if pos < words.len() {
        Some((words[pos], pos + 1))
    } else {
        None
    }
}

fn read_i32(words: &Vec<u32>, pos: usize) -> (r: Option<(i32, usize)>)
    ensures
        r matches Some((v, p)) ==> sd_i32(words@, pos as int) == Some((v, p as int)) && pos < p
            <= words@.len(),
        r is None ==> sd_i32(words@, pos as int) is None,
{
    match read_u32(words, pos) {
        Some((w, p)) => Some((i32_from_word(w), p)),
        None => None,
    }
}

fn read_bool(words: &Vec<u32>, pos: usize) -> (r: Option<(bool, usize)>)
    ensures
        r matches Some((v, p)) ==> sd_bool(words@, pos as int) == Some((v, p as int)) && pos < p
            <= words@.len(),
        r is None ==> sd_bool(words@, pos as int) is None,
{
    match read_u32(words, pos) {
        Some((w, p)) => {
            if w == 0 {
                Some((false, p))
            } else if w == 1 {
                Some((true, p))
            } else {
                None
            }
        },
        None => None,
    }
}

fn read_char(words: &Vec<u32>, pos: usize) -> (r: Option<(char, usize)>)
    ensures
        r matches Some((v, p)) ==> sd_char(words@, pos as int) == Some((v, p as int)) && pos < p
            <= words@.len(),
        r is None ==> sd_char(words@, pos as int) is None,
{
    match read_u32(words, pos) {
        Some((w, p)) => match char_from_u32(w) {
            Some(c) => Some((c, p)),
            None => None,
        },
        None => None,
    }
}

fn read_opt_u32(words: &Vec<u32>, pos: usize) -> (r: Option<(Option<u32>, usize)>)
    ensures
        r matches Some((v, p)) ==> sd_opt_u32(words@, pos as int) == Some((v, p as int)) && pos
            < p <= words@.len(),
        r is None ==> sd_opt_u32(words@, pos as int) is None,
{
    match read_u32(words, pos) {
        Some((tag, p1)) => match read_u32(words, p1) {
            Some((v, p2)) => {
                if tag == 0 {
                    Some((None, p2))
                } else if tag == 1 {
                    Some((Some(v), p2))
                } else {
                    None
                }
            },
            None => None,
        },
        None => None,
    }
}

fn read_tile(words: &Vec<u32>, pos: usize) -> (r: Option<(Tile, usize)>)
    ensures
        r matches Some((v, p)) ==> sd_tile(words@, pos as int) == Some((v, p as int)) && pos < p
            <= words@.len(),
        r is None ==> sd_tile(words@, pos as int) is None,
{
    let (ty, p1) = match read_u32(words, pos) {
        Some(x) => x,
        None => {
            return None;
        },
    };
    if ty > 1 {
        return None;
    }
    let (sym, p2) = match read_char(words, p1) {
        Some(x) => x,
        None => {
            return None;
        },
    };
    let (ent, p3) = match read_opt_u32(words, p2) {
        Some(x) => x,
        None => {
            return None;
        },
    };
    let (pw, p4) = match read_u32(words, p3) {
        Some(x) => x,
        None => {
            return None;
        },
    };
    let powerup = if pw == 0 {
        PowerupType::NoPowerup
    } else if pw == 1 {
        PowerupType::HealingPotion
    } else if pw == 2 {
        PowerupType::SpeedBoost
    } else if pw == 3 {
        PowerupType::WallBreaker
    } else {
        return None;
    };
    let tile_type = if ty == 1 {
        TileType::Wall
    } else {
        TileType::WalkableGeneric
    };
    Some((Tile { tile_type, symbol: sym, entity_id: ent, powerup }, p4))
}

#[verifier::rlimit(60)]
#[verifier::loop_isolation(false)]
fn read_entity(words: &Vec<u32>, pos: usize) -> (r: Option<(Entity, usize)>)
    ensures
        r matches Some((v, p)) ==> sd_entity(words@, pos as int) == Some((v.model(), p as int))
            && pos < p <= words@.len(),
        r is None ==> sd_entity(words@, pos as int) is None,
{
    let (id, p1) = match read_u32(words, pos) {
        Some(x) => x,
        None => {
            return None;
        },
    };
    let (team, p2) = match read_u32(words, p1) {
        Some(x) => x,
        None => {
            return None;
        },
    };
    let (max_health, p3) = match read_u32(words, p2) {
        Some(x) => x,
        None => {
            return None;
        },
    };
    let (health, p4) = match read_u32(words, p3) {
        Some(x) => x,
        None => {
            return None;
        },
    };
    let (max_energy, p5) = match read_u32(words, p4) {
        Some(x) => x,
        None => {
            return None;
        },
    };
    let (energy, p6) = match read_u32(words, p5) {
        Some(x) => x,
        None => {
            return None;
        },
    };
    let (damage, p7) = match read_u32(words, p6) {
        Some(x) => x,
        None => {
            return None;
        },
    };
    let (attack_range, p8) = match read_u32(words, p7) {
        Some(x) => x,
        None => {
            return None;
        },
    };
    let (x, p9) = match read_i32(words, p8) {
        Some(v) => v,
        None => {
            return None;
        },
    };
    let (y, p10) = match read_i32(words, p9) {
        Some(v) => v,
        None => {
            return None;
        },
    };
    let (stun, p11) = match read_u32(words, p10) {
        Some(v) => v,
        None => {
            return None;
        },
    };
    let (sel, p12) = match read_bool(words, p11) {
        Some(v) => v,
        None => {
            return None;
        },
    };
    let (ai, p13) = match read_bool(words, p12) {
        Some(v) => v,
        None => {
            return None;
        },
    };
    let (sym, p14) = match read_char(words, p13) {
        Some(v) => v,
        None => {
            return None;
        },
    };
    let (nlen, p15) = match read_u32(words, p14) {
        Some(v) => v,
        None => {
            return None;
        },
    };
    let ghost chars_orig = sd_chars(words@, p15 as int, nlen as nat);
    let n = nlen as usize;
    let mut name = String::new();
    let mut cur = p15;
    let mut i: usize = 0;
    while i < n
        invariant
            i <= n,
            n == nlen as nat,
            p15 <= cur,
            cur <= words@.len(),
            name@.len() == i,
            chars_orig == (match sd_chars(words@, cur as int, (n - i) as nat) {
                None => None::<(Seq<char>, int)>,
                Some((rest, end)) => Some((name@ + rest, end)),
            }),
        decreases n - i,
    {
        match read_char(words, cur) {
            Some((c, p)) => {
                proof {
                    match sd_chars(words@, p as int, (n - i - 1) as nat) {
                        Some((rest2, end2)) => {
                            assert((name@ + (seq![c] + rest2)) =~= (name@.push(c) + rest2));
                        },
                        None => {},
                    }
                }
                push_char(&mut name, c);
                cur = p;
            },
            None => {
                return None;
            },
        }
        i = i + 1;
    }
    proof {
        assert(name@ + Seq::<char>::empty() =~= name@);
        assert(sd_chars(words@, p15 as int, nlen as nat) == Some((name@, cur as int)));
    }
    let e = Entity {
        id,
        symbol: sym,
        name,
        team,
        max_health,
        health,
        max_energy,
        energy,
        damage,
        attack_range,
        position: MapPosition { x, y },
        stunned_for_turns: stun,
        is_selected: sel,
        is_ai: ai,
    };
    proof {
        assert(e.model() == (EntityModel {
            id,
            symbol: sym,
            name: e.name@,
            team,
            max_health,
            health,
            max_energy,
            energy,
            damage,
            attack_range,
            position: MapPosition { x, y },
            stunned_for_turns: stun,
            is_selected: sel,
            is_ai: ai,
        }));
        assert(sd_entity(words@, pos as int) == Some((e.model(), cur as int)));
    }
    Some((e, cur))
}

/// Decodes a full snapshot back into a world; absent when the stream is
/// not exactly one well-shaped snapshot of a well-formed world.
#[verifier::rlimit(60)]
#[verifier::loop_isolation(false)]
pub fn world_from_snapshot(words: &Vec<u32>) -> (r: Option<WorldState>)
    ensures
        r matches Some(w) ==> w.wf() && sd_world(words@) == Some(w.model()),
        sd_world(words@) is None ==> r is None,
        sd_world(words@) matches Some(m) ==> (r is None ==> (forall|w2: WorldState|
            (#[trigger] w2.model()) == m ==> !w2.wf())),
{
    let (width, p1) = match read_i32(words, 0) {
        Some(v) => v,
        None => {
            return None;
        },
    };
    let (height, p2) = match read_i32(words, p1) {
        Some(v) => v,
        None => {
            return None;
        },
    };
    if width < 0 || height < 0 {
        return None;
    }
    proof {
        let big: int = 0x4000_0000_0000_0000;
        let lim: int = 0x8000_0000;
        assert(0 <= (width as int) * (height as int) < big) by (nonlinear_arith)
            requires
                0 <= width < lim,
                0 <= height < lim,
                big == lim * lim,
        ;
    }
    let prod = width as i64 * height as i64;
    if prod > 0x7fff_ffffi64 {
        return None;
    }
    let tn = prod as usize;
    let ghost tiles_orig = sd_tiles(words@, p2 as int, (width * height) as nat);
    let mut tiles: Vec<Tile> = Vec::new();
    let mut cur = p2;
    let mut k: usize = 0;
    while k < tn
        invariant
            k <= tn,
            tn == (width * height) as int,
            cur <= words@.len(),
            tiles@.len() == k,
            tiles_orig == (match sd_tiles(words@, cur as int, (tn - k) as nat) {
                None => None::<(Seq<Tile>, int)>,
                Some((rest, end)) => Some((tiles@ + rest, end)),
            }),
        decreases tn - k,
    {
        match read_tile(words, cur) {
            Some((t, p)) => {
                proof {
                    match sd_tiles(words@, p as int, (tn - k - 1) as nat) {
                        Some((rest2, end2)) => {
                            assert((tiles@ + (seq![t] + rest2)) =~= (tiles@.push(t) + rest2));
                        },
                        None => {},
                    }
                }
                tiles.push(t);
                cur = p;
            },
            None => {
                return None;
            },
        }
        k = k + 1;
    }
    proof {
        assert(tiles@ + Seq::<Tile>::empty() =~= tiles@);
    }
    let (count, p4) = match read_u32(words, cur) {
        Some(v) => v,
        None => {
            return None;
        },
    };
    let en = count as usize;
    let ghost ents_orig = sd_entities(words@, p4 as int, count as nat);
    let mut entities: Vec<Entity> = Vec::new();
    let mut cur2 = p4;
    let mut a: usize = 0;
    while a < en
        invariant
            a <= en,
            en == count as int,
            cur2 <= words@.len(),
            entities@.len() == a,
            ents_orig == (match sd_entities(words@, cur2 as int, (en - a) as nat) {
                None => None::<(Seq<EntityModel>, int)>,
                Some((rest, end)) => Some((models_of(entities@) + rest, end)),
            }),
        decreases en - a,
    {
        match read_entity(words, cur2) {
            Some((e, p)) => {
                proof {
                    assert(models_of(entities@.push(e)) =~= models_of(entities@).push(e.model()));
                    match sd_entities(words@, p as int, (en - a - 1) as nat) {
                        Some((rest2, end2)) => {
                            assert((models_of(entities@) + (seq![e.model()] + rest2)) =~= (
                            models_of(entities@).push(e.model()) + rest2));
                        },
                        None => {},
                    }
                }
                entities.push(e);
                cur2 = p;
            },
            None => {
                return None;
            },
        }
        a = a + 1;
    }
    proof {
        assert(models_of(entities@) + Seq::<EntityModel>::empty() =~= models_of(entities@));
    }
    let (next_entity_id, p6) = match read_u32(words, cur2) {
        Some(v) => v,
        None => {
            return None;
        },
    };
    let (current_team_turn, p7) = match read_u32(words, p6) {
        Some(v) => v,
        None => {
            return None;
        },
    };
    if p7 != words.len() {
        return None;
    }
    let map = GameMap::from_parts(width, height, tiles);
    let w = WorldState { map, entities, next_entity_id, current_team_turn };
    proof {
        assert(sd_world(words@) matches Some(m) && m == w.model()) by {
            assert(models_of(w.entities@) =~= w.model().entities);
        }
    }
    if w.check_wf() {
        Some(w)
    } else {
        proof {
            let m = w.model();
            assert forall|w2: WorldState| (#[trigger] w2.model()) == m implies !w2.wf() by {
                lemma_wf_of_model(w, w2);
            }
        }
        None
    }
}

/// Two worlds with the same persistence-relevant content are equally
/// well-formed: the invariant does not look at names.
proof fn lemma_wf_of_model(a: WorldState, b: WorldState)
    requires
        a.model() == b.model(),
    ensures
        a.wf() == b.wf(),
{
    crate::grid::GameMap::lemma_wf_eq_of_parts(a.map, b.map);
    assert(a.entities@.len() == b.entities@.len()) by {
        assert(models_of(a.entities@).len() == models_of(b.entities@).len());
    }
    assert forall|i: int| 0 <= i < a.entities@.len() implies (#[trigger] a.entities@[i]).model()
        == b.entities@[i].model() by {
        assert(models_of(a.entities@)[i] == models_of(b.entities@)[i]);
    }
    assert forall|i: int| 0 <= i < a.entities@.len() implies #[trigger] a.wf_entity_at(i)
        == b.wf_entity_at(i) by {
        assert(a.entities@[i].model() == b.entities@[i].model());
    }
    assert forall|p: MapPosition| a.map.spec_in_bounds(p) implies #[trigger] a.wf_tile_at(p)
        == b.wf_tile_at(p) by {
        match a.map.tile_at(p).entity_id {
            Some(id) => {
            if a.wf_tile_at(p) {
                let j = choose|j: int|
                    0 <= j < a.entities@.len() && (#[trigger] a.entities@[j]).id == id
                        && a.entities@[j].spec_is_live() && a.entities@[j].position == p;
                assert(a.entities@[j].model() == b.entities@[j].model());
                assert(b.wf_tile_at(p));
            }
            if b.wf_tile_at(p) {
                let j = choose|j: int|
                    0 <= j < b.entities@.len() && (#[trigger] b.entities@[j]).id == id
                        && b.entities@[j].spec_is_live() && b.entities@[j].position == p;
                assert(a.entities@[j].model() == b.entities@[j].model());
                assert(a.wf_tile_at(p));
            }
            },
            None => {},
        }
    }
    if a.wf() {
        assert forall|i: int| 0 <= i < b.entities@.len() implies #[trigger] b.wf_entity_at(i) by {
            assert(a.wf_entity_at(i));
        }
        assert forall|i: int, j: int|
            0 <= i < b.entities@.len() && 0 <= j < b.entities@.len() && i != j implies (
        #[trigger] b.entities@[i]).id != (#[trigger] b.entities@[j]).id by {
            assert(a.entities@[i].model() == b.entities@[i].model());
            assert(a.entities@[j].model() == b.entities@[j].model());
        }
        assert forall|p: MapPosition| b.map.spec_in_bounds(p) implies #[trigger] b.wf_tile_at(
            p,
        ) by {
            assert(a.map.spec_in_bounds(p));
            assert(a.wf_tile_at(p));
        }
        assert(b.wf());
    }
    if b.wf() {
        assert forall|i: int| 0 <= i < a.entities@.len() implies #[trigger] a.wf_entity_at(i) by {
            assert(b.wf_entity_at(i));
        }
        assert forall|i: int, j: int|
            0 <= i < a.entities@.len() && 0 <= j < a.entities@.len() && i != j implies (
        #[trigger] a.entities@[i]).id != (#[trigger] a.entities@[j]).id by {
            assert(a.entities@[i].model() == b.entities@[i].model());
            assert(a.entities@[j].model() == b.entities@[j].model());
        }
        assert forall|p: MapPosition| a.map.spec_in_bounds(p) implies #[trigger] a.wf_tile_at(
            p,
        ) by {
            assert(b.map.spec_in_bounds(p));
            assert(b.wf_tile_at(p));
        }
        assert(a.wf());
    }
}


} // verus!
