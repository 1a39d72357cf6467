use solo5e::combat::actions::{attempt_grapple, attempt_shove_prone};
use solo5e::conditions::{attempt_escape_grapple_end_of_turn, ActiveCondition, ConditionKind};
use solo5e::events::Event;
use solo5e::Dice;

#[test]
fn grapple_applies_grappled_on_win() {
    let mut conds = vec![];
    let mut logs: Vec<Event> = vec![];
    let mut dice = Dice::from_scripted(vec![15, 10]);
    let ok = attempt_grapple("Hero", 3, "Gob", 1, 2, &mut conds, &mut dice, &mut logs);
    assert!(ok);
    assert!(conds.iter().any(|c| c.kind == ConditionKind::Grappled));
}

#[test]
fn shove_sets_prone_on_win() {
    let mut conds = vec![];
    let mut logs: Vec<Event> = vec![];
    let mut dice = Dice::from_scripted(vec![12, 5]);
    let ok = attempt_shove_prone("Hero", 3, "Gob", 1, 1, &mut conds, &mut dice, &mut logs);
    assert!(ok);
    assert!(conds.iter().any(|c| c.kind == ConditionKind::Prone));
}

#[test]
fn escape_grapple_removes_condition() {
    let mut conds = vec![ActiveCondition {
        kind: ConditionKind::Grappled,
        save_ends_each_turn: false,
        end_phase: None,
        end_save: None,
        pending_one_turn: false,
    }];
    let mut logs: Vec<Event> = vec![];
    let mut dice = Dice::from_scripted(vec![10, 15]);
    attempt_escape_grapple_end_of_turn("Gob", 1, 2, 0, &mut conds, &mut dice, &mut logs);
    assert!(!conds.iter().any(|c| c.kind == ConditionKind::Grappled));
}

#[test]
fn contest_log_carries_both_rolls_and_totals() {
    let mut conds = vec![];
    let mut logs: Vec<Event> = vec![];
    let mut dice = Dice::from_scripted(vec![15, 10]);
    let _ = attempt_grapple("Hero", 3, "Gob", 1, 2, &mut conds, &mut dice, &mut logs);
    assert!(logs.iter().any(|ev| matches!(
        ev,
        Event::Contest {
            attacker,
            defender,
            attacker_roll: 15,
            attacker_total: 18,
            defender_roll: 10,
            defender_total: 12,
        } if attacker == "Hero" && defender == "Gob"
    )));
}
