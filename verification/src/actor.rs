//! Abilities, skills and the actor: six ability scores, a proficiency bonus,
//! and proficiency-gated checks, saves and attack bonuses.

use vstd::prelude::*;

verus! {

use crate::dice::{AdMode, Dice, d20_kept, d20_step};
use crate::rules::{CheckInput, CheckResult, ability_mod, ability_modifier, check};

/// The six abilities.
#[derive(Copy, Clone, Debug, PartialEq, Eq, Structural)]
pub enum Ability {
    Str,
    Dex,
    Con,
    Int,
    Wis,
    Cha,
}

/// The eighteen skills, each keyed to an ability.
#[derive(Copy, Clone, Debug, PartialEq, Eq, Structural)]
pub enum Skill {
    Athletics,
    Acrobatics,
    SleightOfHand,
    Stealth,
    Arcana,
    History,
    Investigation,
    Nature,
    Religion,
    AnimalHandling,
    Insight,
    Medicine,
    Perception,
    Survival,
    Deception,
    Intimidation,
    Performance,
    Persuasion,
}

/// The ability a skill is keyed to.
pub open spec fn spec_key_ability(s: Skill) -> Ability {
    match s {
        Skill::Athletics => Ability::Str,
        Skill::Acrobatics | Skill::SleightOfHand | Skill::Stealth => Ability::Dex,
        Skill::Arcana
        | Skill::History
        | Skill::Investigation
        | Skill::Nature
        | Skill::Religion => Ability::Int,
        Skill::AnimalHandling
        | Skill::Insight
        | Skill::Medicine
        | Skill::Perception
        | Skill::Survival => Ability::Wis,
        Skill::Deception | Skill::Intimidation | Skill::Performance | Skill::Persuasion
            => Ability::Cha,
    }
}

impl Skill {
    /// The ability this skill is keyed to: Athletics to Strength, the
    /// acrobatic skills to Dexterity, the lore skills to Intelligence, the
    /// perceptive skills to Wisdom, the social skills to Charisma.
    pub fn key_ability(&self) -> (r: Ability)
        ensures
            r == spec_key_ability(*self),
    {
        match self {
            Skill::Athletics => Ability::Str,
            Skill::Acrobatics | Skill::SleightOfHand | Skill::Stealth => Ability::Dex,
            Skill::Arcana
            | Skill::History
            | Skill::Investigation
            | Skill::Nature
            | Skill::Religion => Ability::Int,
            Skill::AnimalHandling
            | Skill::Insight
            | Skill::Medicine
            | Skill::Perception
            | Skill::Survival => Ability::Wis,
            Skill::Deception | Skill::Intimidation | Skill::Performance | Skill::Persuasion
                => Ability::Cha,
        }
    }
}

/// A saving throw demanded of a creature: which ability, against which DC.
#[derive(Debug, Clone, Copy, PartialEq, Eq, Structural)]
pub struct SavingThrow {
    pub ability: Ability,
    pub dc: i32,
}

/// The six ability scores of a creature.
#[derive(Clone, Copy, Debug, PartialEq, Eq, Structural)]
pub struct AbilityScores {
    pub str_: i32,
    pub dex: i32,
    pub con: i32,
    pub int_: i32,
    pub wis: i32,
    pub cha: i32,
}

/// The score an `AbilityScores` holds for an ability.
pub open spec fn spec_score(s: AbilityScores, a: Ability) -> int {
    match a {
        Ability::Str => s.str_ as int,
        Ability::Dex => s.dex as int,
        Ability::Con => s.con as int,
        Ability::Int => s.int_ as int,
        Ability::Wis => s.wis as int,
        Ability::Cha => s.cha as int,
    }
}

impl AbilityScores {
    /// The raw score for an ability.
    pub fn get(&self, a: Ability) -> (r: i32)
        ensures
            r == spec_score(*self, a),
    {
        match a {
            Ability::Str => self.str_,
            Ability::Dex => self.dex,
            Ability::Con => self.con,
            Ability::Int => self.int_,
            Ability::Wis => self.wis,
            Ability::Cha => self.cha,
        }
    }

    /// The modifier for an ability: floor((score - 10) / 2).
    pub fn mod_of(&self, a: Ability) -> (r: i32)
        ensures
            r == ability_modifier(spec_score(*self, a)),
    {
        ability_mod(self.get(a))
    }
}

/// Whether a proficiency list contains an ability.
pub fn contains_ability(v: &Vec<Ability>, a: Ability) -> (r: bool)
    ensures
        r == v@.contains(a),
{
    let mut i: usize = 0;
    while i < v.len()
        invariant
            i <= v@.len(),
            forall|j: int| 0 <= j < i ==> v@[j] != a,
        decreases v@.len() - i,
    {
        if v[i] == a {
            return true;
        }
        i = i + 1;
    }
    false
}

/// Whether a proficiency list contains a skill.
pub fn contains_skill(v: &Vec<Skill>, s: Skill) -> (r: bool)
    ensures
        r == v@.contains(s),
{
    let mut i: usize = 0;
    while i < v.len()
        invariant
            i <= v@.len(),
            forall|j: int| 0 <= j < i ==> v@[j] != s,
        decreases v@.len() - i,
    {
        if v[i] == s {
            return true;
        }
        i = i + 1;
    }
    false
}

/// A player-controlled actor: ability scores, a proficiency bonus, and the
/// abilities and skills it is proficient in. Immutable during a simulation.
#[derive(Clone, Debug)]
pub struct Actor {
    pub abilities: AbilityScores,
    pub proficiency_bonus: i32,
    pub save_proficiencies: Vec<Ability>,
    pub skill_proficiencies: Vec<Skill>,
}

impl Actor {
    /// The saving-throw modifier for an ability: its modifier, plus the
    /// proficiency bonus when proficient in that save.
    pub open spec fn spec_save_mod(self, a: Ability) -> int {
        ability_modifier(spec_score(self.abilities, a)) + if self.save_proficiencies@.contains(a) {
            self.proficiency_bonus as int
        } else {
            0
        }
    }

    /// The skill-check modifier for a skill: its key ability's modifier, plus
    /// the proficiency bonus when proficient in that skill.
    pub open spec fn spec_skill_mod(self, s: Skill) -> int {
        ability_modifier(spec_score(self.abilities, spec_key_ability(s)))
            + if self.skill_proficiencies@.contains(s) {
            self.proficiency_bonus as int
        } else {
            0
        }
    }

    /// The attack bonus for an ability: its modifier, plus the proficiency
    /// bonus when attacking with a proficient weapon.
    pub open spec fn spec_attack_bonus(self, a: Ability, proficient: bool) -> int {
        ability_modifier(spec_score(self.abilities, a)) + if proficient {
            self.proficiency_bonus as int
        } else {
            0
        }
    }

    /// The modifier for an ability.
    pub fn ability_mod(&self, a: Ability) -> (r: i32)
        ensures
            r == ability_modifier(spec_score(self.abilities, a)),
    {
        self.abilities.mod_of(a)
    }

    /// The saving-throw modifier for an ability.
    pub fn save_mod(&self, a: Ability) -> (r: i32)
        requires
            i32::MIN <= self.spec_save_mod(a) <= i32::MAX,
        ensures
            r == self.spec_save_mod(a),
    {
        let base = self.ability_mod(a);
        let prof = if contains_ability(&self.save_proficiencies, a) {
            self.proficiency_bonus
        } else {
            0
        };
        base + prof
    }

    /// The skill-check modifier for a skill.
    pub fn skill_mod(&self, s: Skill) -> (r: i32)
        requires
            i32::MIN <= self.spec_skill_mod(s) <= i32::MAX,
        ensures
            r == self.spec_skill_mod(s),
    {
        let base = self.ability_mod(s.key_ability());
        let prof = if contains_skill(&self.skill_proficiencies, s) {
            self.proficiency_bonus
        } else {
            0
        };
        base + prof
    }

    /// Roll an ability check against a DC.
    pub fn ability_check(&self, dice: &mut Dice, a: Ability, mode: AdMode, dc: i32) -> (r:
        CheckResult)
        requires
            ability_modifier(spec_score(self.abilities, a)) + 20 <= i32::MAX,
        ensures
            r.roll == d20_kept(old(dice)@, mode) as int,
            r.total == r.roll + ability_modifier(spec_score(self.abilities, a)),
            r.dc == dc,
            r.passed == (r.total >= dc),
            final(dice)@ == d20_step(old(dice)@, mode),
    {
        check(dice, CheckInput { dc, modifier: self.ability_mod(a), mode })
    }

    /// Roll a skill check against a DC.
    pub fn skill_check(&self, dice: &mut Dice, s: Skill, mode: AdMode, dc: i32) -> (r: CheckResult)
        requires
            i32::MIN <= self.spec_skill_mod(s),
            self.spec_skill_mod(s) + 20 <= i32::MAX,
        ensures
            r.roll == d20_kept(old(dice)@, mode) as int,
            r.total == r.roll + self.spec_skill_mod(s),
            r.dc == dc,
            r.passed == (r.total >= dc),
            final(dice)@ == d20_step(old(dice)@, mode),
    {
        check(dice, CheckInput { dc, modifier: self.skill_mod(s), mode })
    }

    /// Roll a saving throw against a DC.
    pub fn saving_throw(&self, dice: &mut Dice, a: Ability, mode: AdMode, dc: i32) -> (r:
        CheckResult)
        requires
            i32::MIN <= self.spec_save_mod(a),
            self.spec_save_mod(a) + 20 <= i32::MAX,
        ensures
            r.roll == d20_kept(old(dice)@, mode) as int,
            r.total == r.roll + self.spec_save_mod(a),
            r.dc == dc,
            r.passed == (r.total >= dc),
            final(dice)@ == d20_step(old(dice)@, mode),
    {
        check(dice, CheckInput { dc, modifier: self.save_mod(a), mode })
    }

    /// The attack bonus: ability modifier, plus proficiency when proficient.
    pub fn attack_bonus(&self, ability: Ability, proficient: bool) -> (r: i32)
        requires
            i32::MIN <= self.spec_attack_bonus(ability, proficient) <= i32::MAX,
        ensures
            r == self.spec_attack_bonus(ability, proficient),
    {
        let mut b = self.ability_mod(ability);
        if proficient {
            b = b + self.proficiency_bonus;
        }
        b
    }

    /// The damage modifier: the ability modifier, added once to damage, even
    /// on a critical hit.
    pub fn damage_mod(&self, ability: Ability) -> (r: i32)
        ensures
            r == ability_modifier(spec_score(self.abilities, ability)),
    {
        self.ability_mod(ability)
    }
}

} // verus!
