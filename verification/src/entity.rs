//! Units: identity, team, stats, position and status flags.

use vstd::prelude::*;
use crate::position::MapPosition;

verus! {

/// Identifier of an entity; unique and never reused within one world.
pub type EntityID = u32;

/// Energy deducted per tile of movement.
pub const MOVE_COST: u32 = 1;

/// Flat energy cost of an attack, regardless of range.
pub const ATTACK_COST: u32 = 2;

/// A unit on the map.
///
/// Well-formedness ([`Entity::wf`]): health never exceeds `max_health`
/// and energy never exceeds `max_energy`. An entity is dead exactly when
/// its health is zero; dead entities take no further part in the game.
#[derive(Debug, Clone)]
pub struct Entity {
    pub id: EntityID,
    pub symbol: char,
    pub name: String,
    pub team: u32,

    pub max_health: u32,
    pub health: u32,
    pub max_energy: u32,
    pub energy: u32,
    pub damage: u32,
    pub attack_range: u32,

    pub position: MapPosition,
    pub stunned_for_turns: u32,
    pub is_selected: bool,
    pub is_ai: bool,
}

impl Entity {
    /// Stat bounds that every entity keeps at all times.
    pub open spec fn wf(self) -> bool {
        &&& self.health <= self.max_health
        &&& self.energy <= self.max_energy
    }

    pub open spec fn spec_is_dead(self) -> bool {
        self.health == 0
    }

    pub open spec fn spec_is_live(self) -> bool {
        self.health > 0
    }

    pub open spec fn spec_is_stunned(self) -> bool {
        self.stunned_for_turns > 0
    }

    /// Not stunned and holding at least `cost` energy.
    pub open spec fn spec_can_act(self, cost: u32) -> bool {
        !self.spec_is_stunned() && self.energy >= cost
    }

    /// A new entity at full health and energy, unselected, not
    /// AI-controlled and not stunned.
    pub fn new(
        id: EntityID,
        symbol: char,
        name: String,
        position: MapPosition,
        team: u32,
        max_health: u32,
        max_energy: u32,
        damage: u32,
        attack_range: u32,
    ) -> (r: Self)
        ensures
            r == (Entity {
                id,
                symbol,
                name,
                team,
                max_health,
                health: max_health,
                max_energy,
                energy: max_energy,
                damage,
                attack_range,
                position,
                stunned_for_turns: 0,
                is_selected: false,
                is_ai: false,
            }),
            r.wf(),
    {
        Entity {
            id,
            symbol,
            name,
            team,
            max_health,
            health: max_health,
            max_energy,
            energy: max_energy,
            damage,
            attack_range,
            position,
            stunned_for_turns: 0,
            is_selected: false,
            is_ai: false,
        }
    }

    pub fn id(&self) -> (r: EntityID)
        ensures
            r == self.id,
    {
        self.id
    }

    pub fn symbol(&self) -> (r: char)
        ensures
            r == self.symbol,
    {
        self.symbol
    }

    pub fn display_name(&self) -> (r: &str)
        ensures
            r@ == self.name@,
    {
        self.name.as_str()
    }

    pub fn team(&self) -> (r: u32)
        ensures
            r == self.team,
    {
        self.team
    }

    pub fn position(&self) -> (r: MapPosition)
        ensures
            r == self.position,
    {
        self.position
    }

    pub fn health(&self) -> (r: u32)
        ensures
            r == self.health,
    {
        self.health
    }

    pub fn max_health(&self) -> (r: u32)
        ensures
            r == self.max_health,
    {
        self.max_health
    }

    pub fn energy(&self) -> (r: u32)
        ensures
            r == self.energy,
    {
        self.energy
    }

    pub fn max_energy(&self) -> (r: u32)
        ensures
            r == self.max_energy,
    {
        self.max_energy
    }

    pub fn damage(&self) -> (r: u32)
        ensures
            r == self.damage,
    {
        self.damage
    }

    pub fn attack_range(&self) -> (r: u32)
        ensures
            r == self.attack_range,
    {
        self.attack_range
    }

    pub fn is_selected(&self) -> (r: bool)
        ensures
            r == self.is_selected,
    {
        self.is_selected
    }

    pub fn is_ai(&self) -> (r: bool)
        ensures
            r == self.is_ai,
    {
        self.is_ai
    }

    /// Not stunned: free to act this turn.
    pub fn is_active(&self) -> (r: bool)
        ensures
            r == !self.spec_is_stunned(),
    {
        self.stunned_for_turns == 0
    }

    pub fn is_stunned(&self) -> (r: bool)
        ensures
            r == self.spec_is_stunned(),
    {
        self.stunned_for_turns > 0
    }

    pub fn is_dead(&self) -> (r: bool)
        ensures
            r == self.spec_is_dead(),
    {
        self.health == 0
    }

    /// Whether the entity may perform an action of the given energy cost.
    pub fn can_act(&self, cost: u32) -> (r: bool)
        ensures
            r == self.spec_can_act(cost),
    {
        self.is_active() && self.energy >= cost
    }

    pub fn set_position(&mut self, pos: MapPosition)
        ensures
            *final(self) == (Entity { position: pos, ..*old(self) }),
    {
        self.position = pos;
    }

    pub fn set_team(&mut self, team: u32)
        ensures
            *final(self) == (Entity { team, ..*old(self) }),
    {
        self.team = team;
    }

    pub fn set_selected(&mut self, selected: bool)
        ensures
            *final(self) == (Entity { is_selected: selected, ..*old(self) }),
    {
        self.is_selected = selected;
    }

    pub fn set_ai(&mut self, is_ai: bool)
        ensures
            *final(self) == (Entity { is_ai, ..*old(self) }),
    {
        self.is_ai = is_ai;
    }

    /// Counts the stun timer one turn closer to zero, never below it.
    pub fn reduce_stun(&mut self)
        ensures
            *final(self) == (Entity {
                stunned_for_turns: if old(self).stunned_for_turns > 0 {
                    (old(self).stunned_for_turns - 1) as u32
                } else {
                    0
                },
                ..*old(self)
            }),
    {
        if self.stunned_for_turns > 0 {
            self.stunned_for_turns = self.stunned_for_turns - 1;
        }
    }

    /// Spends `cost` energy if the entity can act at that cost; returns
    /// whether the energy was spent.
    pub fn consume_energy(&mut self, cost: u32) -> (r: bool)
        ensures
            r == old(self).spec_can_act(cost),
            r ==> *final(self) == (Entity { energy: (old(self).energy - cost) as u32, ..*old(self) }),
            !r ==> *final(self) == *old(self),
    {
        if self.can_act(cost) {
            self.energy = self.energy - cost;
            true
        } else {
            false
        }
    }

    /// Restores energy to the maximum, unless the entity is stunned.
    pub fn refill_energy(&mut self)
        ensures
            *final(self) == (Entity {
                energy: if old(self).spec_is_stunned() {
                    old(self).energy
                } else {
                    old(self).max_energy
                },
                ..*old(self)
            }),
    {
        if self.is_active() {
            self.energy = self.max_energy;
        }
    }

    /// Applies `amount` damage with saturating subtraction; returns
    /// whether the entity is dead afterwards.
    pub fn take_damage(&mut self, amount: u32) -> (r: bool)
        ensures
            *final(self) == (Entity {
                health: if old(self).health >= amount {
                    (old(self).health - amount) as u32
                } else {
                    0
                },
                ..*old(self)
            }),
            r == final(self).spec_is_dead(),
    {
        self.health = self.health.saturating_sub(amount);
        self.is_dead()
    }

    /// Restores health, never past the maximum; dead entities stay dead.
    pub fn heal(&mut self, amount: u32)
        requires
            old(self).wf(),
        ensures
            *final(self) == (Entity {
                health: if old(self).spec_is_dead() {
                    old(self).health
                } else if old(self).health + amount <= old(self).max_health {
                    (old(self).health + amount) as u32
                } else {
                    old(self).max_health
                },
                ..*old(self)
            }),
            final(self).wf(),
    {
        if self.is_dead() {
            return ;
        }
        let healed = self.health.saturating_add(amount);
        self.health = if healed <= self.max_health {
            healed
        } else {
            self.max_health
        };
    }
}

} // verus!
