//! A verified 5e-style combat resolution engine: seeded dice, rules
//! primitives, a condition system, a life/death state machine, and a
//! turn-based orchestrator for duels and encounters.

pub mod actor;
pub mod api;
pub mod checks;
pub mod combat;
pub mod conditions;
pub mod content;
pub mod dice;
pub mod events;
pub mod life;
pub mod rules;
pub mod text;

pub use api::simulate_duel;
pub use api::simulate_duel_many;
pub use api::simulate_encounter;
pub use content::builtin_encounters;
pub use content::builtin_targets;
pub use content::builtin_weapons;
pub use dice::roll_internal;
pub use actor::Ability;
pub use actor::AbilityScores;
pub use actor::Actor;
pub use actor::SavingThrow;
pub use actor::Skill;
pub use dice::AdMode;
pub use dice::Dice;
pub use rules::ability_mod;
pub use rules::ability_modifier;
pub use rules::adjust_damage_by_type;
pub use rules::attack;
pub use rules::check;
pub use rules::damage;
pub use rules::find_weapon;
pub use rules::parse_damage_dice;
pub use rules::parse_damage_type;
pub use rules::preset_damage_type;
pub use rules::AttackResult;
pub use rules::CheckInput;
pub use rules::CheckResult;
pub use rules::Cover;
pub use rules::DamageDice;
pub use rules::DamageType;
pub use rules::Weapon;
