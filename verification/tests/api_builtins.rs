use solo5e::api::{
    simulate_duel, simulate_duel_many, simulate_encounter, DuelConfig, EncounterConfig,
};
use solo5e::{builtin_encounters, builtin_targets, builtin_weapons, AdMode};

fn basic_duel_config(seed: u64) -> DuelConfig {
    DuelConfig {
        weapon: "longsword".to_string(),
        actor_conditions: vec![],
        enemy_conditions: vec![],
        seed,
        actor_hp: Some(12),
        advantage: AdMode::Normal,
        proficient: true,
        two_handed: true,
        auto_potion: false,
    }
}

#[test]
fn duel_with_builtins_runs() {
    let targets = builtin_targets();
    let weapons = builtin_weapons();
    let cfg = basic_duel_config(2025);
    let res = simulate_duel(&cfg, &targets[0], &weapons).unwrap();
    assert!(res.rounds > 0);
}

#[test]
fn duel_many_summary_makes_sense() {
    let targets = builtin_targets();
    let weapons = builtin_weapons();
    let cfg = basic_duel_config(1);
    let stats = simulate_duel_many(&cfg, &targets[0], &weapons, 50).unwrap();
    assert_eq!(stats.samples, 50);
    assert_eq!(stats.actor_wins + stats.enemy_wins + stats.draws, 50);
}

#[test]
fn encounter_with_builtins_runs() {
    let encounters = builtin_encounters();
    let weapons = builtin_weapons();
    let cfg = EncounterConfig {
        seed: 4242,
        actor_hp: Some(10),
        actor_conditions: vec![],
    };
    let res = simulate_encounter(&cfg, &encounters[0], &weapons).unwrap();
    assert!(res.rounds > 0);
}
