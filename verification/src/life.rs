//! The life/death state machine: HP tracking, unconsciousness, death saves,
//! stabilization and healing-triggered wake-up.

use vstd::prelude::*;

verus! {

use crate::conditions::{ActiveCondition, ConditionKind, plain_condition};
use crate::dice::{AdMode, Dice, d20_first, model_step};
use crate::events::Event;
use crate::text::copy_name;

/// Whether a combatant is up, down, or gone.
#[derive(Debug, Clone, Copy, PartialEq, Eq, Structural)]
pub enum LifeState {
    Conscious,
    Unconscious { stable: bool },
    Dead,
}

/// Death-save tally: successes and failures, each saturating at 3.
#[derive(Debug, Clone, Copy, PartialEq, Eq, Structural)]
pub struct DeathSaves {
    pub successes: u8,
    pub failures: u8,
}

impl Default for DeathSaves {
    /// A fresh tally: no successes, no failures.
    fn default() -> (r: Self)
        ensures
            r == (DeathSaves { successes: 0, failures: 0 }),
    {
        DeathSaves { successes: 0, failures: 0 }
    }
}

/// A tally within its saturating bounds.
pub open spec fn death_saves_bounded(d: DeathSaves) -> bool {
    d.successes <= 3 && d.failures <= 3
}

/// A combatant's health: current and maximum HP, life state, and the
/// death-save tally.
#[derive(Debug, Clone, Copy, PartialEq, Eq, Structural)]
pub struct Health {
    pub hp: i32,
    pub max_hp: i32,
    pub state: LifeState,
    pub death: DeathSaves,
}

impl Health {
    /// Fresh health: at full HP, conscious, with a clean death-save tally.
    pub fn new(max_hp: i32) -> (r: Self)
        ensures
            r == (Health {
                hp: max_hp,
                max_hp,
                state: LifeState::Conscious,
                death: DeathSaves { successes: 0, failures: 0 },
            }),
    {
        Health {
            hp: max_hp,
            max_hp,
            state: LifeState::Conscious,
            death: DeathSaves { successes: 0, failures: 0 },
        }
    }
}

/// Whether a condition list holds a record of this kind.
pub open spec fn has_kind(cs: Seq<ActiveCondition>, k: ConditionKind) -> bool {
    exists|i: int| 0 <= i < cs.len() && cs[i].kind == k
}

/// Whether a condition list holds a record of this kind.
pub fn has_condition_kind(v: &Vec<ActiveCondition>, k: ConditionKind) -> (r: bool)
    ensures
        r == has_kind(v@, k),
{
    let mut i: usize = 0;
    while i < v.len()
        invariant
            i <= v@.len(),
            forall|j: int| 0 <= j < i ==> v@[j].kind != k,
        decreases v@.len() - i,
    {
        if v[i].kind == k {
            return true;
        }
        i = i + 1;
    }
    false
}

/// HP after taking `dmg` damage, clamped at zero from below.
pub open spec fn hp_after_damage(hp: int, dmg: int) -> int {
    if hp - dmg < 0 {
        0
    } else {
        hp - dmg
    }
}

/// Apply damage and handle the drop-to-zero transition. A Dead combatant is
/// untouched and the call reports no drop. Otherwise HP falls (clamped at 0);
/// if it crossed from above zero to exactly zero in this call, the combatant
/// goes Unconscious (not stable), gains Prone if it did not already have it,
/// and the call reports the drop.
pub fn apply_damage(
    name: &str,
    health: &mut Health,
    conditions: &mut Vec<ActiveCondition>,
    dmg: i32,
    log: &mut Vec<Event>,
) -> (dropped: bool)
    requires
        !(old(health).state is Dead) ==> i32::MIN <= old(health).hp - dmg <= i32::MAX,
    ensures
        old(health).state is Dead ==> {
            &&& *final(health) == *old(health)
            &&& final(conditions)@ == old(conditions)@
            &&& final(log)@ == old(log)@
            &&& !dropped
        },
        !(old(health).state is Dead) ==> {
            &&& final(health).hp == hp_after_damage(old(health).hp as int, dmg as int)
            &&& final(health).max_hp == old(health).max_hp
            &&& final(health).death == old(health).death
            &&& dropped == (old(health).hp > 0 && final(health).hp == 0)
            &&& final(health).state == if dropped {
                LifeState::Unconscious { stable: false }
            } else {
                old(health).state
            }
            &&& final(conditions)@ == if dropped && !has_kind(
                old(conditions)@,
                ConditionKind::Prone,
            ) {
                old(conditions)@.push(plain_condition(ConditionKind::Prone))
            } else {
                old(conditions)@
            }
        },
        final(log)@.len() >= old(log)@.len(),
        final(log)@.subrange(0, old(log)@.len() as int) == old(log)@,
        !(old(health).state is Dead) ==> (final(log)@[old(log)@.len() as int] matches
            Event::DamageTaken { name: nm, before, after, amount } && nm@ == name@ && before == old(
            health,
        ).hp && after == final(health).hp && amount == dmg),
        !(old(health).state is Dead) ==> final(log)@.len() == old(log)@.len() + (if dropped {
            if has_kind(old(conditions)@, ConditionKind::Prone) {
                2int
            } else {
                3int
            }
        } else {
            1int
        }),
        dropped ==> (final(log)@.last() matches Event::Dropped { name: nm } && nm@ == name@),
        (dropped && !has_kind(old(conditions)@, ConditionKind::Prone)) ==> (final(log)@[old(log)@.len() as int + 1] matches Event::ConditionGained { name: nm, kind } && nm@ == name@
            && kind == ConditionKind::Prone),
{
    if matches!(health.state, LifeState::Dead) {
        return false;
    }

    let ghost pre_log = log@;
    let before = health.hp;
    let after = if health.hp - dmg < 0 {
        0
    } else {
        health.hp - dmg
    };
    health.hp = after;
    log.push(Event::DamageTaken { name: copy_name(name), before, after, amount: dmg });

    if before > 0 && health.hp == 0 {
        health.state = LifeState::Unconscious { stable: false };
        if !has_condition_kind(conditions, ConditionKind::Prone) {
            conditions.push(make_prone());
            log.push(Event::ConditionGained { name: copy_name(name), kind: ConditionKind::Prone });
        }
        log.push(Event::Dropped { name: copy_name(name) });
        proof {
            assert(log@.subrange(0, pre_log.len() as int) =~= pre_log);
        }
        true
    } else {
        proof {
            assert(log@.subrange(0, pre_log.len() as int) =~= pre_log);
        }
        false
    }
}

/// A bare Prone record, as the drop-to-zero transition applies it.
fn make_prone() -> (r: ActiveCondition)
    ensures
        r == plain_condition(ConditionKind::Prone),
{
    ActiveCondition {
        kind: ConditionKind::Prone,
        save_ends_each_turn: false,
        end_phase: None,
        end_save: None,
        pending_one_turn: false,
    }
}

/// HP after healing, capped at the maximum.
pub open spec fn hp_after_heal(hp: int, amount: int, max_hp: int) -> int {
    if hp + amount > max_hp {
        max_hp
    } else {
        hp + amount
    }
}

/// Heal the combatant. A non-positive amount is a no-op, and so is healing
/// the Dead: that state is terminal. Otherwise HP rises capped at the
/// maximum; a combatant that was Unconscious and is now above zero wakes to
/// Conscious with a clean death-save tally.
pub fn heal(name: &str, health: &mut Health, amount: i32, log: &mut Vec<Event>)
    requires
        (amount > 0 && !(old(health).state is Dead)) ==> old(health).hp + amount <= i32::MAX,
    ensures
        (amount <= 0 || old(health).state is Dead) ==> {
            &&& *final(health) == *old(health)
            &&& final(log)@ == old(log)@
        },
        (amount > 0 && !(old(health).state is Dead)) ==> {
            &&& final(health).hp == hp_after_heal(
                old(health).hp as int,
                amount as int,
                old(health).max_hp as int,
            )
            &&& final(health).max_hp == old(health).max_hp
            &&& {
                let awakened = old(health).state is Unconscious && final(health).hp > 0;
                if awakened {
                    final(health).state == LifeState::Conscious && final(health).death == (
                    DeathSaves { successes: 0, failures: 0 })
                } else {
                    final(health).state == old(health).state && final(health).death == old(
                        health,
                    ).death
                }
            }
        },
        final(log)@.len() >= old(log)@.len(),
        final(log)@.subrange(0, old(log)@.len() as int) == old(log)@,
        (amount > 0 && !(old(health).state is Dead)) ==> final(log)@.len() == old(log)@.len() + 1
            && (final(log)@.last() matches Event::Healed {
            name: nm,
            amount: am,
            before,
            after,
            awakened,
        } && nm@ == name@ && am == amount && before == old(health).hp && after == final(health).hp
            && awakened == (old(health).state is Unconscious && final(health).hp > 0)),
{
    if amount <= 0 || matches!(health.state, LifeState::Dead) {
        return ;
    }
    let ghost pre_log = log@;
    let before = health.hp;
    let was_uncon = matches!(health.state, LifeState::Unconscious { .. });
    let raised = health.hp + amount;
    health.hp = if raised > health.max_hp {
        health.max_hp
    } else {
        raised
    };
    let awakened = was_uncon && health.hp > 0;
    if awakened {
        health.state = LifeState::Conscious;
        health.death = DeathSaves { successes: 0, failures: 0 };
    }
    log.push(
        Event::Healed { name: copy_name(name), amount, before, after: health.hp, awakened },
    );
    proof {
        assert(log@.subrange(0, pre_log.len() as int) =~= pre_log);
    }
}

/// Stabilize an unconscious combatant at 0 HP: no more death saves are
/// required, but it does not wake. Any other state is untouched.
pub fn stabilize(name: &str, health: &mut Health, log: &mut Vec<Event>)
    ensures
        old(health).state is Unconscious ==> *final(health) == (Health {
            state: LifeState::Unconscious { stable: true },
            ..*old(health)
        }),
        !(old(health).state is Unconscious) ==> {
            &&& *final(health) == *old(health)
            &&& final(log)@ == old(log)@
        },
        final(log)@.len() >= old(log)@.len(),
        final(log)@.subrange(0, old(log)@.len() as int) == old(log)@,
{
    let ghost pre_log = log@;
    if matches!(health.state, LifeState::Unconscious { .. }) {
        health.state = LifeState::Unconscious { stable: true };
        log.push(Event::Stabilized { name: copy_name(name) });
        proof {
            assert(log@.subrange(0, pre_log.len() as int) =~= pre_log);
        }
    }
}

/// How a death save came out.
#[derive(Debug, Clone, Copy, PartialEq, Eq, Structural)]
pub enum DeathSaveOutcome {
    /// A natural 20: back on your feet at 1 HP.
    Revived,
    /// The third failure: dead.
    Died,
    /// The third success: stable at 0 HP, still unconscious.
    Stabilized,
    /// A natural 1: two failures at once, tally not yet fatal.
    TwoFailures,
    /// A roll of 10 or more: one success, tally not yet complete.
    Success,
    /// A roll below 10: one failure, tally not yet fatal.
    Failure,
}

/// Whether a combatant rolls a death save at the start of its turn: only
/// while unconscious, not stable, at exactly 0 HP.
pub open spec fn qualifies_for_death_save(h: Health) -> bool {
    h.state == (LifeState::Unconscious { stable: false }) && h.hp == 0
}

/// The health and outcome a death-save roll produces. A natural 20 revives
/// at 1 HP with a clean tally. Any other roll first updates the tally (a
/// natural 1 adds two failures at once, 10 or more adds a success, anything
/// else adds a failure, both counts saturating at 3); only after tallying
/// are the thresholds resolved: three failures kill, whatever the
/// successes; otherwise three successes stabilize.
pub open spec fn death_save_transition(h: Health, roll: u8) -> (Health, DeathSaveOutcome) {
    if roll == 20 {
        (
            Health {
                hp: 1,
                max_hp: h.max_hp,
                state: LifeState::Conscious,
                death: DeathSaves { successes: 0, failures: 0 },
            },
            DeathSaveOutcome::Revived,
        )
    } else {
        let d2 = tallied_saves(h.death, roll);
        let note = if roll == 1 {
            DeathSaveOutcome::TwoFailures
        } else if roll >= 10 {
            DeathSaveOutcome::Success
        } else {
            DeathSaveOutcome::Failure
        };
        if d2.failures >= 3 {
            (Health { hp: h.hp, max_hp: h.max_hp, state: LifeState::Dead, death: d2 },
            DeathSaveOutcome::Died)
        } else if d2.successes >= 3 {
            (
                Health {
                    hp: h.hp,
                    max_hp: h.max_hp,
                    state: LifeState::Unconscious { stable: true },
                    death: d2,
                },
                DeathSaveOutcome::Stabilized,
            )
        } else {
            (Health { hp: h.hp, max_hp: h.max_hp, state: h.state, death: d2 }, note)
        }
    }
}

/// The tally after a roll below 20: a natural 1 adds two failures, 10 or
/// more adds a success, anything else adds a failure; both counts saturate
/// at 3.
pub open spec fn tallied_saves(d: DeathSaves, roll: u8) -> DeathSaves {
    if roll == 1 {
        DeathSaves {
            successes: d.successes,
            failures: if d.failures + 2 >= 3 {
                3
            } else {
                (d.failures + 2) as u8
            },
        }
    } else if roll >= 10 {
        DeathSaves {
            successes: if d.successes + 1 >= 3 {
                3
            } else {
                (d.successes + 1) as u8
            },
            failures: d.failures,
        }
    } else {
        DeathSaves {
            successes: d.successes,
            failures: if d.failures + 1 >= 3 {
                3
            } else {
                (d.failures + 1) as u8
            },
        }
    }
}

/// Roll a death save at the start of the combatant's turn, if it qualifies
/// (unconscious, not stable, at 0 HP); otherwise nothing happens and no roll
/// is made. Returns the outcome of the roll when one happened.
pub fn process_death_save_start_of_turn(
    name: &str,
    health: &mut Health,
    dice: &mut Dice,
    log: &mut Vec<Event>,
) -> (r: Option<DeathSaveOutcome>)
    requires
        death_saves_bounded(old(health).death),
    ensures
        !qualifies_for_death_save(*old(health)) ==> {
            &&& r is None
            &&& *final(health) == *old(health)
            &&& final(dice)@ == old(dice)@
            &&& final(log)@ == old(log)@
        },
        qualifies_for_death_save(*old(health)) ==> {
            let roll = d20_first(old(dice)@);
            &&& *final(health) == death_save_transition(*old(health), roll).0
            &&& r == Some(death_save_transition(*old(health), roll).1)
            &&& final(dice)@ == model_step(old(dice)@, 1, 20)
        },
        death_saves_bounded(final(health).death),
        final(log)@.len() >= old(log)@.len(),
        final(log)@.subrange(0, old(log)@.len() as int) == old(log)@,
{
    let qualifies = match health.state {
        LifeState::Unconscious { stable } => !stable && health.hp == 0,
        _ => false,
    };
    if !qualifies {
        return None;
    }
    let ghost pre_log = log@;
    let roll = dice.d20(AdMode::Normal);
    let outcome: DeathSaveOutcome;
    if roll == 20 {
        health.death = DeathSaves { successes: 0, failures: 0 };
        health.hp = 1;
        health.state = LifeState::Conscious;
        outcome = DeathSaveOutcome::Revived;
    } else {
        let note: DeathSaveOutcome;
        if roll == 1 {
            let f2 = if health.death.failures + 2 >= 3 {
                3
            } else {
                health.death.failures + 2
            };
            health.death = DeathSaves { successes: health.death.successes, failures: f2 };
            note = DeathSaveOutcome::TwoFailures;
        } else if roll >= 10 {
            let s2 = if health.death.successes + 1 >= 3 {
                3
            } else {
                health.death.successes + 1
            };
            health.death = DeathSaves { successes: s2, failures: health.death.failures };
            note = DeathSaveOutcome::Success;
        } else {
            let f2 = if health.death.failures + 1 >= 3 {
                3
            } else {
                health.death.failures + 1
            };
            health.death = DeathSaves { successes: health.death.successes, failures: f2 };
            note = DeathSaveOutcome::Failure;
        }
        if health.death.failures >= 3 {
            health.state = LifeState::Dead;
            outcome = DeathSaveOutcome::Died;
        } else if health.death.successes >= 3 {
            health.state = LifeState::Unconscious { stable: true };
            outcome = DeathSaveOutcome::Stabilized;
        } else {
            outcome = note;
        }
    }
    log.push(Event::DeathSave { name: copy_name(name), roll, outcome });
    proof {
        assert(log@.subrange(0, pre_log.len() as int) =~= pre_log);
    }
    Some(outcome)
}

} // verus!
