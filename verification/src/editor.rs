//! The map editor's unit template and numeric input handling.

use vstd::prelude::*;
use vstd::string::StringExecFns;
use crate::actions::Notice;
use crate::entity::{Entity, EntityID};
use crate::position::MapPosition;
use crate::world::WorldState;

verus! {

/// `c` is a decimal digit.
pub open spec fn spec_is_digit(c: char) -> bool {
    48 <= c as u32 <= 57
}

/// Numeric value of a digit character.
pub open spec fn spec_digit_val(c: char) -> int {
    c as u32 - 48
}

/// The number denoted by a sequence of digit characters, most
/// significant first.
pub open spec fn spec_digits_val(s: Seq<char>) -> int
    decreases s.len(),
{
    if s.len() == 0 {
        0
    } else {
        spec_digits_val(s.drop_last()) * 10 + spec_digit_val(s.last())
    }
}

proof fn lemma_digits_val_nonneg(s: Seq<char>)
    requires
        forall|i: int| 0 <= i < s.len() ==> spec_is_digit(#[trigger] s[i]),
    ensures
        spec_digits_val(s) >= 0,
    decreases s.len(),
{
    if s.len() > 0 {
        lemma_digits_val_nonneg(s.drop_last());
    }
}

/// A longer digit string never denotes a smaller number.
proof fn lemma_digits_val_prefix_le(s: Seq<char>, k: int)
    requires
        forall|i: int| 0 <= i < s.len() ==> spec_is_digit(#[trigger] s[i]),
        0 <= k <= s.len(),
    ensures
        spec_digits_val(s.subrange(0, k)) <= spec_digits_val(s),
    decreases s.len() - k,
{
    if k < s.len() {
        let shorter = s.subrange(0, k);
        let longer = s.subrange(0, k + 1);
        assert(longer.drop_last() =~= shorter);
        assert forall|i: int| 0 <= i < shorter.len() implies spec_is_digit(#[trigger] shorter[i]) by {
            assert(shorter[i] == s[i]);
        }
        lemma_digits_val_nonneg(shorter);
        assert(spec_digits_val(longer) == spec_digits_val(shorter) * 10 + spec_digit_val(
            longer.last(),
        ));
        assert(spec_digits_val(shorter) <= spec_digits_val(shorter) * 10) by (nonlinear_arith)
            requires
                spec_digits_val(shorter) >= 0,
        ;
        lemma_digits_val_prefix_le(s, k + 1);
    } else {
        assert(s.subrange(0, k) =~= s);
    }
}

/// Parses a digit string into a number; absent when the input is empty,
/// holds a non-digit, or denotes a value beyond `u32`.
pub fn parse_u32(digits: &Vec<char>) -> (r: Option<u32>)
    ensures
        r matches Some(v) ==> digits@.len() > 0 && (forall|i: int|
            0 <= i < digits@.len() ==> spec_is_digit(#[trigger] digits@[i])) && v
            == spec_digits_val(digits@),
        r is None ==> (digits@.len() == 0 || (exists|i: int|
            0 <= i < digits@.len() && !spec_is_digit(#[trigger] digits@[i])) || spec_digits_val(
            digits@,
        ) > u32::MAX),
{
    let n = digits.len();
    if n == 0 {
        return None;
    }
    let mut acc: u32 = 0;
    let mut i: usize = 0;
    while i < n
        invariant
            i <= n,
            n == digits@.len(),
            forall|j: int| 0 <= j < i ==> spec_is_digit(#[trigger] digits@[j]),
            acc == spec_digits_val(digits@.subrange(0, i as int)),
        decreases n - i,
    {
        let c = digits[i];
        let code = c as u32;
        if code < 48 || code > 57 {
            return None;
        }
        let d = code - 48;
        let stepped = match acc.checked_mul(10) {
            Some(m) => m.checked_add(d),
            None => None,
        };
        match stepped {
            Some(v) => {
                proof {
                    assert(digits@.subrange(0, i + 1 as int).drop_last() =~= digits@.subrange(
                        0,
                        i as int,
                    ));
                }
                acc = v;
            },
            None => {
                // the prefix already exceeds `u32`, so the whole string does
                proof {
                    let pre = digits@.subrange(0, i + 1 as int);
                    assert(pre.drop_last() =~= digits@.subrange(0, i as int));
                    assert(spec_digits_val(pre) > u32::MAX);
                    if forall|j: int| 0 <= j < digits@.len() ==> spec_is_digit(#[trigger] digits@[j]) {
                        lemma_digits_val_prefix_le(digits@, i + 1 as int);
                    }
                }
                return None;
            },
        }
        i = i + 1;
    }
    proof {
        assert(digits@.subrange(0, n as int) =~= digits@);
    }
    Some(acc)
}

/// Which numeric field of the unit template is being edited.
#[derive(Debug, PartialEq, Eq, Clone, Copy, Structural)]
pub enum InputTarget {
    Idle,
    Team,
    Hp,
    Energy,
    Damage,
}

/// The template from which the editor spawns units.
#[derive(Debug, Clone, Copy, PartialEq, Eq, Structural)]
pub struct EntitySpec {
    pub team: u32,
    pub hp: u32,
    pub energy: u32,
    pub damage: u32,
    pub range: u32,
    pub is_ai: bool,
    pub symbol: char,
}

/// The display glyph for a team: `@` for the player, a letter for others.
pub open spec fn spec_team_symbol(team: u32) -> char {
    if team == 1 {
        '@'
    } else {
        ((65 + ((team as u8) % 26)) as u8) as char
    }
}

impl EntitySpec {
    /// The editor's starting template, as a value.
    pub open spec fn spec_starting() -> EntitySpec {
        EntitySpec { team: 1, hp: 50, energy: 50, damage: 5, range: 4, is_ai: true, symbol: '@' }
    }

    /// The editor's starting template.
    pub fn starting() -> (r: Self)
        ensures
            r == Self::spec_starting(),
    {
        EntitySpec { team: 1, hp: 50, energy: 50, damage: 5, range: 4, is_ai: true, symbol: '@' }
    }

    /// Rederives the glyph from the team and flags non-player teams as
    /// AI-controlled.
    pub fn update_symbol(&mut self)
        ensures
            *final(self) == (EntitySpec {
                symbol: spec_team_symbol(old(self).team),
                is_ai: old(self).team != 1,
                ..*old(self)
            }),
    {
        if self.team == 1 {
            self.symbol = '@';
        } else {
            let base: u8 = 65;
            let offset: u8 = (#[verifier::truncate] (self.team as u8)) % 26;
            self.symbol = (base + offset) as char;
        }
        self.is_ai = self.team != 1;
    }

    pub fn toggle_ai(&mut self)
        ensures
            *final(self) == (EntitySpec { is_ai: !old(self).is_ai, ..*old(self) }),
    {
        self.is_ai = !self.is_ai;
    }

    /// The unit this template describes, at the given id and position.
    pub fn to_entity(&self, id: EntityID, pos: MapPosition) -> (r: Entity)
        ensures
            r == (Entity {
                id,
                symbol: self.symbol,
                name: r.name,
                team: self.team,
                max_health: self.hp,
                health: self.hp,
                max_energy: self.energy,
                energy: self.energy,
                damage: self.damage,
                attack_range: self.range,
                position: pos,
                stunned_for_turns: 0,
                is_selected: false,
                is_ai: self.is_ai,
            }),
            self.team == 1 ==> r.name@ == "Player"@,
            self.team != 1 ==> r.name@ == "Enemy"@,
    {
        let name = if self.team == 1 {
            String::from_str("Player")
        } else {
            String::from_str("Enemy")
        };
        let mut entity = Entity::new(
            id,
            self.symbol,
            name,
            pos,
            self.team,
            self.hp,
            self.energy,
            self.damage,
            self.range,
        );
        entity.set_ai(self.is_ai);
        entity
    }
}

/// Collects typed digits for one numeric field of the template.
#[derive(Debug, Clone, PartialEq, Eq)]
pub struct EditorInput {
    pub input_target: InputTarget,
    pub input_buffer: Vec<char>,
}

impl EditorInput {
    pub fn new() -> (r: Self)
        ensures
            r.input_target == InputTarget::Idle,
            r.input_buffer@.len() == 0,
    {
        EditorInput { input_target: InputTarget::Idle, input_buffer: Vec::new() }
    }

    /// Abandons the edit: no target, empty buffer.
    pub fn cancel(&mut self)
        ensures
            final(self).input_target == InputTarget::Idle,
            final(self).input_buffer@.len() == 0,
    {
        self.input_target = InputTarget::Idle;
        self.input_buffer = Vec::new();
    }

    /// Appends a typed character when it is a digit; ignores the rest.
    pub fn handle_typing(&mut self, c: char)
        ensures
            final(self).input_target == old(self).input_target,
            spec_is_digit(c) ==> final(self).input_buffer@ == old(self).input_buffer@.push(c),
            !spec_is_digit(c) ==> final(self).input_buffer@ == old(self).input_buffer@,
    {
        let code = c as u32;
        if code >= 48 && code <= 57 {
            self.input_buffer.push(c);
        }
    }

    /// Drops the last typed character, if any.
    pub fn handle_backspace(&mut self)
        ensures
            final(self).input_target == old(self).input_target,
            old(self).input_buffer@.len() == 0 ==> final(self).input_buffer@ == old(
                self,
            ).input_buffer@,
            old(self).input_buffer@.len() > 0 ==> final(self).input_buffer@ == old(
                self,
            ).input_buffer@.drop_last(),
    {
        let popped = self.input_buffer.pop();
        proof {
            if old(self).input_buffer@.len() > 0 {
                assert(self.input_buffer@ =~= old(self).input_buffer@.drop_last());
            }
        }
    }

    /// Commits the typed number into the targeted field of `template`,
    /// rederiving the glyph on a team change; reports what happened.
    /// An empty buffer cancels the edit; an unparsable number changes
    /// nothing; a number typed with no field targeted is kept pending.
    pub fn confirm(&mut self, template: &mut EntitySpec) -> (r: Option<Notice>)
        ensures
            old(self).input_buffer@.len() == 0 ==> r == Some(Notice::EditEmpty) && *final(template)
                == *old(template) && final(self).input_target == InputTarget::Idle && final(self).input_buffer@.len() == 0,
            ({
                let parsed = old(self).input_buffer@.len() > 0 && (forall|i: int|
                    0 <= i < old(self).input_buffer@.len() ==> spec_is_digit(
                        #[trigger] old(self).input_buffer@[i],
                    )) && spec_digits_val(old(self).input_buffer@) <= u32::MAX;
                let v = spec_digits_val(old(self).input_buffer@);
                &&& (old(self).input_buffer@.len() > 0 && !parsed ==> r == Some(
                    Notice::InvalidNumber,
                ) && *final(template) == *old(template) && final(self).input_target
                    == InputTarget::Idle && final(self).input_buffer@.len() == 0)
                &&& (parsed && old(self).input_target == InputTarget::Idle ==> r is None && *final(self) == *old(self) && *final(template) == *old(template))
                &&& (parsed && old(self).input_target != InputTarget::Idle ==> final(self).input_target == InputTarget::Idle && final(self).input_buffer@.len() == 0)
                &&& (parsed && old(self).input_target == InputTarget::Team ==> *final(template)
                    == (EntitySpec {
                    team: v as u32,
                    symbol: spec_team_symbol(v as u32),
                    is_ai: v != 1,
                    ..*old(template)
                }) && r == Some(
                    Notice::SetTeam { team: v as u32, symbol: spec_team_symbol(v as u32) },
                ))
                &&& (parsed && old(self).input_target == InputTarget::Hp ==> *final(template)
                    == (EntitySpec { hp: v as u32, ..*old(template) }) && r == Some(
                    Notice::SetHp(v as u32),
                ))
                &&& (parsed && old(self).input_target == InputTarget::Energy ==> *final(template)
                    == (EntitySpec { energy: v as u32, ..*old(template) }) && r == Some(
                    Notice::SetEnergy(v as u32),
                ))
                &&& (parsed && old(self).input_target == InputTarget::Damage ==> *final(template)
                    == (EntitySpec { damage: v as u32, ..*old(template) }) && r == Some(
                    Notice::SetDamage(v as u32),
                ))
            }),
    {
        if self.input_buffer.len() == 0 {
            self.cancel();
            return Some(Notice::EditEmpty);
        }
        let result: Option<Notice> = match parse_u32(&self.input_buffer) {
            Some(val) => match self.input_target {
                InputTarget::Team => {
                    template.team = val;
                    template.update_symbol();
                    Some(Notice::SetTeam { team: val, symbol: template.symbol })
                },
                InputTarget::Hp => {
                    template.hp = val;
                    Some(Notice::SetHp(val))
                },
                InputTarget::Energy => {
                    template.energy = val;
                    Some(Notice::SetEnergy(val))
                },
                InputTarget::Damage => {
                    template.damage = val;
                    Some(Notice::SetDamage(val))
                },
                InputTarget::Idle => {
                    return None;
                },
            },
            None => Some(Notice::InvalidNumber),
        };
        self.cancel();
        result
    }
}

} // verus!
