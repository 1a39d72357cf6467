//! Structured combat events. The engine reports everything it does as an
//! ordered, append-only list of these records; rendering them as text is left
//! to the caller.

use vstd::prelude::*;

verus! {

use crate::actor::Ability;
use crate::conditions::{ConditionKind, DurationPhase};
use crate::life::DeathSaveOutcome;
use crate::rules::{Cover, DamageDice, DamageType};

/// One entry of the combat log.
#[derive(Debug, Clone, PartialEq)]
pub enum Event {
    /// A combatant begins the fight already under a condition.
    ConditionStart { name: String, kind: ConditionKind },
    /// A save rolled at the end of a turn to shake off a condition.
    SaveAttempt {
        name: String,
        against: ConditionKind,
        ability: Ability,
        dc: i32,
        roll: i32,
        total: i32,
        passed: bool,
    },
    /// A condition removed by a successful end-of-turn save.
    ConditionEnded { name: String, kind: ConditionKind },
    /// A one-turn condition expiring at its stored phase.
    ConditionExpired { name: String, kind: ConditionKind, phase: DurationPhase },
    /// A condition resisted on application by a successful save.
    ConditionResisted {
        name: String,
        kind: ConditionKind,
        ability: Ability,
        dc: i32,
        roll: i32,
        total: i32,
    },
    /// A condition gained.
    ConditionGained { name: String, kind: ConditionKind },
    /// Hit points lost to damage.
    DamageTaken { name: String, before: i32, after: i32, amount: i32 },
    /// A combatant dropping to 0 HP and falling unconscious.
    Dropped { name: String },
    /// Hit points regained.
    Healed { name: String, amount: i32, before: i32, after: i32, awakened: bool },
    /// An unconscious combatant stabilized at 0 HP.
    Stabilized { name: String },
    /// A death save rolled at the start of a turn.
    DeathSave { name: String, roll: u8, outcome: DeathSaveOutcome },
    /// A contested check: both sides roll d20 plus their modifier.
    Contest {
        attacker: String,
        defender: String,
        attacker_roll: i32,
        attacker_total: i32,
        defender_roll: i32,
        defender_total: i32,
    },
    /// A contested action succeeding and applying a condition.
    ContestApplied { name: String, kind: ConditionKind },
    /// A contested action failing with no state change.
    ContestFailed,
    /// The opening record of a duel.
    DuelStart { actor_ac: i32, actor_hp: i32, enemy_name: String, enemy_ac: i32, enemy_hp: i32 },
    /// The opening record of an encounter.
    EncounterStart { name: String, enemies: usize },
    /// An initiative roll for one participant.
    InitiativeRoll { name: String, roll: i32, total: i32 },
    /// Who acts first in a duel, from the two initiative totals.
    Initiative { actor_total: i32, enemy_total: i32, actor_first: bool },
    /// A new round beginning.
    RoundStart { round: u32 },
    /// A combatant skipping its action: dead or unconscious.
    TurnSkipped { name: String, dead: bool },
    /// The defender's effective AC, cover included.
    Defense { name: String, base_ac: i32, cover: Cover },
    /// An attack roll with its raw draws, kept roll, total and outcome.
    Attack {
        attacker: String,
        raw_rolls: Vec<u8>,
        roll: i32,
        total: i32,
        ac: i32,
        hit: bool,
        crit: bool,
        nat1: bool,
    },
    /// A damage roll: dice expression, modifier, crit doubling and total
    /// after type adjustment.
    DamageRoll {
        attacker: String,
        dice: DamageDice,
        modifier: i32,
        crit: bool,
        total: i32,
        dtype: DamageType,
    },
    /// A combatant's hit points after an attack resolved against it.
    HpChange { name: String, before: i32, after: i32 },
    /// An enemy reduced to 0 HP.
    EnemyDefeated { name: String },
    /// The one-shot reactive potion restoring hit points.
    PotionUsed { name: String, amount: i32 },
    /// The closing record of a duel.
    DuelEnd { rounds: u32, actor_hp: i32, enemy_hp: i32 },
    /// The closing record of an encounter.
    EncounterEnd { survived: bool, rounds: u32, remaining: u32 },
}


/// A list extended only at the end keeps every old entry at its old place.
pub proof fn lemma_prefix_preserves_index<T>(pre: Seq<T>, post: Seq<T>)
    requires
        pre.len() <= post.len(),
        post.subrange(0, pre.len() as int) == pre,
    ensures
        forall|i: int| 0 <= i < pre.len() ==> #[trigger] post[i] == pre[i],
{
    assert forall|i: int| 0 <= i < pre.len() implies #[trigger] post[i] == pre[i] by {
        assert(post.subrange(0, pre.len() as int)[i] == post[i]);
    }
}

} // verus!
