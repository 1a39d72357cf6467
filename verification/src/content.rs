//! Built-in content: the default weapon table and sample targets and
//! encounters, constructed once and handed to the simulations as immutable
//! values.

use vstd::prelude::*;

verus! {

use crate::actor::{Ability, SavingThrow};
use crate::api::{EncounterSpec, FocusStrategy, Target, TargetAttack, attack_bounded,
    encounter_bounded, target_bounded};
use crate::conditions::{ConditionDuration, ConditionKind, ConditionSpec};
use crate::rules::{Cover, DamageDice, DamageType, Weapon};

/// The five preset weapons: longsword (1d8, versatile 1d10, slashing),
/// shortsword (1d6, finesse, piercing), dagger (1d4, finesse, piercing),
/// greatsword (2d6, slashing) and longbow (1d8, ranged, piercing).
pub fn builtin_weapons() -> (r: Vec<Weapon>)
    ensures
        r@.len() == 5,
        r@[0].name@ == "longsword"@,
        r@[0].dice == (DamageDice { count: 1, sides: 8 }),
        r@[0].versatile == Some(DamageDice { count: 1, sides: 10 }),
        !r@[0].finesse && !r@[0].ranged,
        r@[0].damage_type == Some(DamageType::Slashing),
        r@[1].name@ == "shortsword"@,
        r@[1].dice == (DamageDice { count: 1, sides: 6 }),
        r@[1].versatile is None,
        r@[1].finesse && !r@[1].ranged,
        r@[1].damage_type == Some(DamageType::Piercing),
        r@[2].name@ == "dagger"@,
        r@[2].dice == (DamageDice { count: 1, sides: 4 }),
        r@[2].versatile is None,
        r@[2].finesse && !r@[2].ranged,
        r@[2].damage_type == Some(DamageType::Piercing),
        r@[3].name@ == "greatsword"@,
        r@[3].dice == (DamageDice { count: 2, sides: 6 }),
        r@[3].versatile is None,
        !r@[3].finesse && !r@[3].ranged,
        r@[3].damage_type == Some(DamageType::Slashing),
        r@[4].name@ == "longbow"@,
        r@[4].dice == (DamageDice { count: 1, sides: 8 }),
        r@[4].versatile is None,
        !r@[4].finesse && r@[4].ranged,
        r@[4].damage_type == Some(DamageType::Piercing),
{
    let mut r: Vec<Weapon> = Vec::new();
    r.push(
        Weapon {
            name: "longsword".to_owned(),
            dice: DamageDice { count: 1, sides: 8 },
            finesse: false,
            ranged: false,
            versatile: Some(DamageDice { count: 1, sides: 10 }),
            damage_type: Some(DamageType::Slashing),
        },
    );
    r.push(
        Weapon {
            name: "shortsword".to_owned(),
            dice: DamageDice { count: 1, sides: 6 },
            finesse: true,
            ranged: false,
            versatile: None,
            damage_type: Some(DamageType::Piercing),
        },
    );
    r.push(
        Weapon {
            name: "dagger".to_owned(),
            dice: DamageDice { count: 1, sides: 4 },
            finesse: true,
            ranged: false,
            versatile: None,
            damage_type: Some(DamageType::Piercing),
        },
    );
    r.push(
        Weapon {
            name: "greatsword".to_owned(),
            dice: DamageDice { count: 2, sides: 6 },
            finesse: false,
            ranged: false,
            versatile: None,
            damage_type: Some(DamageType::Slashing),
        },
    );
    r.push(
        Weapon {
            name: "longbow".to_owned(),
            dice: DamageDice { count: 1, sides: 8 },
            finesse: false,
            ranged: true,
            versatile: None,
            damage_type: Some(DamageType::Piercing),
        },
    );
    r
}

/// The built-in targets: one poison goblin (AC 13, HP 7, DEX +2) whose
/// single 1d6 piercing blade carries Poisoned on a failed DC 10 Constitution
/// save, shaken off by a save at the end of each of the bearer's turns. The
/// goblin itself is immune to poison.
pub fn builtin_targets() -> (r: Vec<Target>)
    ensures
        r@.len() == 1,
        r@[0].name@ == "poison_goblin"@,
        r@[0].ac == 13,
        r@[0].hp == 7,
        r@[0].dex_mod == 2,
        r@[0].abilities is None,
        r@[0].attacks@.len() == 1,
        r@[0].attacks@[0].to_hit == 4,
        r@[0].attacks@[0].dice == (DamageDice { count: 1, sides: 6 }),
        r@[0].attacks@[0].damage_type == Some(DamageType::Piercing),
        !r@[0].attacks@[0].ranged,
        r@[0].attacks@[0].apply_condition == Some(
            ConditionSpec {
                kind: ConditionKind::Poisoned,
                save: Some(SavingThrow { ability: Ability::Con, dc: 10 }),
                duration: ConditionDuration { until: None, save_ends_each_turn: true },
            },
        ),
        r@[0].resistances@.len() == 0,
        r@[0].vulnerabilities@.len() == 0,
        r@[0].immunities@.len() == 1 && r@[0].immunities@[0]@ == "poison"@,
        r@[0].conditions@.len() == 0,
        r@[0].cover == Cover::Open,
        target_bounded(r@[0]),
{
    let mut attacks: Vec<TargetAttack> = Vec::new();
    attacks.push(
        TargetAttack {
            name: "poison blade".to_owned(),
            to_hit: 4,
            dice: DamageDice { count: 1, sides: 6 },
            damage_type: Some(DamageType::Piercing),
            ranged: false,
            apply_condition: Some(
                ConditionSpec {
                    kind: ConditionKind::Poisoned,
                    save: Some(SavingThrow { ability: Ability::Con, dc: 10 }),
                    duration: ConditionDuration { until: None, save_ends_each_turn: true },
                },
            ),
        },
    );
    let mut immunities: Vec<String> = Vec::new();
    immunities.push("poison".to_owned());
    let mut r: Vec<Target> = Vec::new();
    r.push(
        Target {
            name: "poison_goblin".to_owned(),
            ac: 13,
            hp: 7,
            dex_mod: 2,
            abilities: None,
            attacks,
            resistances: Vec::new(),
            vulnerabilities: Vec::new(),
            immunities,
            conditions: Vec::new(),
            cover: Cover::Open,
        },
    );
    proof {
        assert forall|i: int| 0 <= i < r@[0].attacks@.len() implies attack_bounded(
            #[trigger] r@[0].attacks@[i],
        ) by {
            assert(r@[0].attacks@[0].to_hit == 4);
        }
    }
    r
}

/// A basic goblin for the built-in encounter: AC 13, DEX +2, one 1d6
/// slashing scimitar at +4 to hit.
fn basic_goblin(name: &str, hp: i32) -> (r: Target)
    requires
        -1_000_000 <= hp <= 1_000_000,
    ensures
        r.name@ == name@,
        r.ac == 13,
        r.hp == hp,
        r.dex_mod == 2,
        r.attacks@.len() == 1,
        r.attacks@[0].to_hit == 4,
        r.attacks@[0].dice == (DamageDice { count: 1, sides: 6 }),
        r.attacks@[0].apply_condition is None,
        r.conditions@.len() == 0,
        r.cover == Cover::Open,
        target_bounded(r),
{
    let mut attacks: Vec<TargetAttack> = Vec::new();
    attacks.push(
        TargetAttack {
            name: "scimitar".to_owned(),
            to_hit: 4,
            dice: DamageDice { count: 1, sides: 6 },
            damage_type: Some(DamageType::Slashing),
            ranged: false,
            apply_condition: None,
        },
    );
    let r = Target {
        name: crate::text::copy_name(name),
        ac: 13,
        hp,
        dex_mod: 2,
        abilities: None,
        attacks,
        resistances: Vec::new(),
        vulnerabilities: Vec::new(),
        immunities: Vec::new(),
        conditions: Vec::new(),
        cover: Cover::Open,
    };
    proof {
        assert forall|i: int| 0 <= i < r.attacks@.len() implies attack_bounded(
            #[trigger] r.attacks@[i],
        ) by {
            assert(r.attacks@[0].to_hit == 4);
        }
    }
    r
}

/// The built-in encounters: one goblin ambush, two basic goblins (HP 5 and
/// HP 6) against the actor, targeted by original index unless the caller
/// overrides the focus.
pub fn builtin_encounters() -> (r: Vec<EncounterSpec>)
    ensures
        r@.len() == 1,
        r@[0].name@ == "goblin_ambush"@,
        r@[0].focus == FocusStrategy::First,
        r@[0].enemies@.len() == 2,
        r@[0].enemies@[0].hp == 5,
        r@[0].enemies@[1].hp == 6,
        r@[0].enemies@[0].attacks@.len() == 1,
        r@[0].enemies@[1].attacks@.len() == 1,
        encounter_bounded(r@[0]),
{
    let mut enemies: Vec<Target> = Vec::new();
    enemies.push(basic_goblin("goblin_a", 5));
    enemies.push(basic_goblin("goblin_b", 6));
    let mut r: Vec<EncounterSpec> = Vec::new();
    r.push(
        EncounterSpec { name: "goblin_ambush".to_owned(), focus: FocusStrategy::First, enemies },
    );
    r
}

} // verus!
