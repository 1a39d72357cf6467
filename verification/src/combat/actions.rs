//! Contested combat actions: grapple and shove. The attacker rolls Strength
//! against the defender's better of Strength or Dexterity; a win applies the
//! condition idempotently (it is never duplicated).

use vstd::prelude::*;

verus! {

use crate::checks::{ContestOutcome, best_of_str_dex, contested_check, spec_best_of_str_dex,
    spec_contest};
use crate::conditions::{ActiveCondition, ConditionKind, make_active_condition, plain_condition};
use crate::dice::{DiceModel, model_step};
use crate::events::Event;
use crate::life::has_kind;
use crate::text::copy_name;
use crate::Dice;

/// Whether the attacker wins the grapple or shove contest on this stream.
pub open spec fn contest_won(
    m: DiceModel,
    attacker_str_mod: int,
    defender_str_mod: int,
    defender_dex_mod: int,
) -> bool {
    spec_contest(
        m,
        attacker_str_mod,
        spec_best_of_str_dex(defender_str_mod, defender_dex_mod).1,
    ) == ContestOutcome::AttackerWins
}

/// The defender's conditions after a winning contest applied `kind`: a new
/// bare record is pushed unless one of that kind is already there.
pub open spec fn conditions_after_win(cs: Seq<ActiveCondition>, kind: ConditionKind) -> Seq<
    ActiveCondition,
> {
    if has_kind(cs, kind) {
        cs
    } else {
        cs.push(plain_condition(kind))
    }
}

/// Attempt to grapple the defender: contested Strength against the
/// defender's better of Strength or Dexterity, ties to the defender. A win
/// applies Grappled, never duplicating an existing record.
pub fn attempt_grapple(
    attacker_name: &str,
    attacker_str_mod: i32,
    defender_name: &str,
    defender_str_mod: i32,
    defender_dex_mod: i32,
    defender_conds: &mut Vec<ActiveCondition>,
    dice: &mut Dice,
    log: &mut Vec<Event>,
) -> (won: bool)
    requires
        -0x1000_0000 <= attacker_str_mod <= 0x1000_0000,
        -0x1000_0000 <= defender_str_mod <= 0x1000_0000,
        -0x1000_0000 <= defender_dex_mod <= 0x1000_0000,
    ensures
        won == contest_won(
            old(dice)@,
            attacker_str_mod as int,
            defender_str_mod as int,
            defender_dex_mod as int,
        ),
        final(defender_conds)@ == if won {
            conditions_after_win(old(defender_conds)@, ConditionKind::Grappled)
        } else {
            old(defender_conds)@
        },
        final(dice)@ == model_step(model_step(old(dice)@, 1, 20), 1, 20),
        final(log)@.len() >= old(log)@.len(),
        final(log)@.subrange(0, old(log)@.len() as int) == old(log)@,
{
    contested_action(
        attacker_name,
        attacker_str_mod,
        defender_name,
        defender_str_mod,
        defender_dex_mod,
        ConditionKind::Grappled,
        defender_conds,
        dice,
        log,
    )
}

/// Attempt to shove the defender prone: the same contest as a grapple; a win
/// applies Prone, never duplicating an existing record.
pub fn attempt_shove_prone(
    attacker_name: &str,
    attacker_str_mod: i32,
    defender_name: &str,
    defender_str_mod: i32,
    defender_dex_mod: i32,
    defender_conds: &mut Vec<ActiveCondition>,
    dice: &mut Dice,
    log: &mut Vec<Event>,
) -> (won: bool)
    requires
        -0x1000_0000 <= attacker_str_mod <= 0x1000_0000,
        -0x1000_0000 <= defender_str_mod <= 0x1000_0000,
        -0x1000_0000 <= defender_dex_mod <= 0x1000_0000,
    ensures
        won == contest_won(
            old(dice)@,
            attacker_str_mod as int,
            defender_str_mod as int,
            defender_dex_mod as int,
        ),
        final(defender_conds)@ == if won {
            conditions_after_win(old(defender_conds)@, ConditionKind::Prone)
        } else {
            old(defender_conds)@
        },
        final(dice)@ == model_step(model_step(old(dice)@, 1, 20), 1, 20),
        final(log)@.len() >= old(log)@.len(),
        final(log)@.subrange(0, old(log)@.len() as int) == old(log)@,
{
    contested_action(
        attacker_name,
        attacker_str_mod,
        defender_name,
        defender_str_mod,
        defender_dex_mod,
        ConditionKind::Prone,
        defender_conds,
        dice,
        log,
    )
}

/// The shared body of grapple and shove: run the contest and apply `kind` on
/// a win.
fn contested_action(
    attacker_name: &str,
    attacker_str_mod: i32,
    defender_name: &str,
    defender_str_mod: i32,
    defender_dex_mod: i32,
    kind: ConditionKind,
    defender_conds: &mut Vec<ActiveCondition>,
    dice: &mut Dice,
    log: &mut Vec<Event>,
) -> (won: bool)
    requires
        -0x1000_0000 <= attacker_str_mod <= 0x1000_0000,
        -0x1000_0000 <= defender_str_mod <= 0x1000_0000,
        -0x1000_0000 <= defender_dex_mod <= 0x1000_0000,
    ensures
        won == contest_won(
            old(dice)@,
            attacker_str_mod as int,
            defender_str_mod as int,
            defender_dex_mod as int,
        ),
        final(defender_conds)@ == if won {
            conditions_after_win(old(defender_conds)@, kind)
        } else {
            old(defender_conds)@
        },
        final(dice)@ == model_step(model_step(old(dice)@, 1, 20), 1, 20),
        final(log)@.len() >= old(log)@.len(),
        final(log)@.subrange(0, old(log)@.len() as int) == old(log)@,
{
    let ghost pre_log = log@;
    let (_, def_mod) = best_of_str_dex(defender_str_mod, defender_dex_mod);
    let outcome = contested_check(
        dice,
        attacker_str_mod,
        def_mod,
        attacker_name,
        defender_name,
        log,
    );
    match outcome {
        ContestOutcome::AttackerWins => {
            if !crate::life::has_condition_kind(defender_conds, kind) {
                defender_conds.push(make_active_condition(kind));
            }
            log.push(Event::ContestApplied { name: copy_name(defender_name), kind });
            proof {
                assert(log@.subrange(0, pre_log.len() as int) =~= pre_log);
            }
            true
        },
        _ => {
            log.push(Event::ContestFailed);
            proof {
                assert(log@.subrange(0, pre_log.len() as int) =~= pre_log);
            }
            false
        },
    }
}

} // verus!
