use solo5e::api::{simulate_duel, DuelConfig, Winner};
use solo5e::{builtin_targets, builtin_weapons, AdMode};

#[test]
fn duel_api_smoke() {
    let targets = builtin_targets();
    let weapons = builtin_weapons();

    let cfg = DuelConfig {
        weapon: "longsword".to_string(),
        actor_conditions: vec![],
        enemy_conditions: vec![],
        seed: 2025,
        actor_hp: Some(12),
        advantage: AdMode::Normal,
        proficient: true,
        two_handed: true,
        auto_potion: false,
    };
    let res = simulate_duel(&cfg, &targets[0], &weapons).expect("duel ran");
    assert!(res.rounds > 0);
    assert!(matches!(
        res.winner,
        Winner::Actor | Winner::Enemy | Winner::Draw
    ));
    assert!(!res.log.is_empty());
}
