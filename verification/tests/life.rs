use solo5e::conditions::{ActiveCondition, ConditionKind};
use solo5e::events::Event;
use solo5e::life::{
    apply_damage, heal, process_death_save_start_of_turn, DeathSaves, Health, LifeState,
};
use solo5e::Dice;

#[test]
fn nat20_wakes_to_one_hp() {
    let mut h = Health {
        hp: 0,
        max_hp: 10,
        state: LifeState::Unconscious { stable: false },
        death: DeathSaves {
            successes: 0,
            failures: 0,
        },
    };
    let mut log: Vec<Event> = Vec::new();
    let mut dice = Dice::from_scripted(vec![20]);
    let outcome = process_death_save_start_of_turn("Hero", &mut h, &mut dice, &mut log);
    assert_eq!(h.state, LifeState::Conscious);
    assert_eq!(h.hp, 1);
    assert!(outcome.is_some());
}

#[test]
fn nat1_counts_two_failures_and_can_kill() {
    let mut h = Health {
        hp: 0,
        max_hp: 10,
        state: LifeState::Unconscious { stable: false },
        death: DeathSaves {
            successes: 0,
            failures: 1,
        },
    };
    let mut log: Vec<Event> = Vec::new();
    let mut dice = Dice::from_scripted(vec![1]);
    let _ = process_death_save_start_of_turn("Hero", &mut h, &mut dice, &mut log);
    assert!(matches!(h.state, LifeState::Dead));
}

#[test]
fn three_successes_stabilize() {
    let mut h = Health {
        hp: 0,
        max_hp: 10,
        state: LifeState::Unconscious { stable: false },
        death: DeathSaves {
            successes: 2,
            failures: 0,
        },
    };
    let mut log: Vec<Event> = Vec::new();
    let mut dice = Dice::from_scripted(vec![10]);
    let _ = process_death_save_start_of_turn("Hero", &mut h, &mut dice, &mut log);
    assert!(matches!(h.state, LifeState::Unconscious { stable: true }));
}

#[test]
fn healing_resets_death_saves_and_wakes() {
    let mut h = Health {
        hp: 0,
        max_hp: 12,
        state: LifeState::Unconscious { stable: false },
        death: DeathSaves {
            successes: 2,
            failures: 2,
        },
    };
    let mut log: Vec<Event> = Vec::new();
    heal("Hero", &mut h, 6, &mut log);
    assert_eq!(h.hp, 6);
    assert_eq!(h.death.successes, 0);
    assert_eq!(h.death.failures, 0);
    assert_eq!(h.state, LifeState::Conscious);
}

#[test]
fn apply_damage_triggers_unconscious_and_prone_once() {
    let mut h = Health {
        hp: 3,
        max_hp: 10,
        state: LifeState::Conscious,
        death: DeathSaves {
            successes: 0,
            failures: 0,
        },
    };
    let mut conds: Vec<ActiveCondition> = vec![];
    let mut seen: Vec<Event> = Vec::new();
    let dropped = apply_damage("Hero", &mut h, &mut conds, 5, &mut seen);
    assert!(dropped);
    assert_eq!(h.hp, 0);
    assert!(matches!(h.state, LifeState::Unconscious { stable: false }));
    assert!(conds.iter().any(|c| c.kind == ConditionKind::Prone));
}

#[test]
fn thresholds_resolve_after_tallying() {
    // Three successes already on the tally: even a failed save stabilizes,
    // because the thresholds are checked after the tally is updated.
    let mut h = Health {
        hp: 0,
        max_hp: 10,
        state: LifeState::Unconscious { stable: false },
        death: DeathSaves {
            successes: 3,
            failures: 0,
        },
    };
    let mut log: Vec<Event> = Vec::new();
    let mut dice = Dice::from_scripted(vec![5]);
    let _ = process_death_save_start_of_turn("Hero", &mut h, &mut dice, &mut log);
    assert_eq!(h.state, LifeState::Unconscious { stable: true });

    // Three failures already on the tally: death takes precedence even over
    // a successful roll.
    let mut h = Health {
        hp: 0,
        max_hp: 10,
        state: LifeState::Unconscious { stable: false },
        death: DeathSaves {
            successes: 0,
            failures: 3,
        },
    };
    let mut log: Vec<Event> = Vec::new();
    let mut dice = Dice::from_scripted(vec![15]);
    let _ = process_death_save_start_of_turn("Hero", &mut h, &mut dice, &mut log);
    assert_eq!(h.state, LifeState::Dead);
}

#[test]
fn healing_the_dead_does_nothing() {
    let mut h = Health {
        hp: 0,
        max_hp: 10,
        state: LifeState::Dead,
        death: DeathSaves {
            successes: 0,
            failures: 3,
        },
    };
    let mut log: Vec<Event> = Vec::new();
    heal("Gone", &mut h, 6, &mut log);
    assert_eq!(h.hp, 0);
    assert_eq!(h.state, LifeState::Dead);
    assert!(log.is_empty());
}
