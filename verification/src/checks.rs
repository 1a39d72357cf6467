//! Contested checks: both sides roll d20 plus a modifier; ties favor the
//! defender.

use vstd::prelude::*;

verus! {

use crate::actor::Ability;
use crate::dice::{AdMode, Dice, DiceModel, d20_first, d20_second, model_step};
use crate::events::Event;
use crate::text::copy_name;

/// Result of a contested check.
#[derive(Debug, Clone, Copy, PartialEq, Eq, Structural)]
pub enum ContestOutcome {
    AttackerWins,
    DefenderWins,
    TieDefender,
}

/// The outcome of a contest on a stream: the attacker draws first, the
/// defender second; the attacker wins only with the strictly higher total.
pub open spec fn spec_contest(m: DiceModel, att_mod: int, def_mod: int) -> ContestOutcome {
    let at = d20_first(m) + att_mod;
    let dt = d20_second(m) + def_mod;
    if at > dt {
        ContestOutcome::AttackerWins
    } else if at == dt {
        ContestOutcome::TieDefender
    } else {
        ContestOutcome::DefenderWins
    }
}

/// Roll a contested check: attacker d20 + modifier against defender d20 +
/// modifier; the tie goes to the defender.
pub fn contested_check(
    dice: &mut Dice,
    att_mod: i32,
    def_mod: i32,
    att_label: &str,
    def_label: &str,
    log: &mut Vec<Event>,
) -> (r: ContestOutcome)
    requires
        -0x1000_0000 <= att_mod <= 0x1000_0000,
        -0x1000_0000 <= def_mod <= 0x1000_0000,
    ensures
        r == spec_contest(old(dice)@, att_mod as int, def_mod as int),
        final(dice)@ == model_step(model_step(old(dice)@, 1, 20), 1, 20),
        final(log)@.len() == old(log)@.len() + 1,
        final(log)@.subrange(0, old(log)@.len() as int) == old(log)@,
        (final(log)@.last() matches Event::Contest {
            attacker,
            defender,
            attacker_roll,
            attacker_total,
            defender_roll,
            defender_total,
        } && attacker@ == att_label@ && defender@ == def_label@ && attacker_roll == d20_first(
            old(dice)@,
        ) as int && attacker_total == attacker_roll + att_mod && defender_roll == d20_second(
            old(dice)@,
        ) as int && defender_total == defender_roll + def_mod),
{
    let ghost pre_log = log@;
    let ar = dice.d20(AdMode::Normal) as i32;
    let dr = dice.d20(AdMode::Normal) as i32;
    let at = ar + att_mod;
    let dt = dr + def_mod;
    log.push(
        Event::Contest {
            attacker: copy_name(att_label),
            defender: copy_name(def_label),
            attacker_roll: ar,
            attacker_total: at,
            defender_roll: dr,
            defender_total: dt,
        },
    );
    proof {
        assert(log@.subrange(0, pre_log.len() as int) =~= pre_log);
    }
    if at > dt {
        ContestOutcome::AttackerWins
    } else if at == dt {
        ContestOutcome::TieDefender
    } else {
        ContestOutcome::DefenderWins
    }
}

/// The defender's better option between Strength and Dexterity; Strength
/// wins a tie.
pub open spec fn spec_best_of_str_dex(str_mod: int, dex_mod: int) -> (Ability, int) {
    if dex_mod > str_mod {
        (Ability::Dex, dex_mod)
    } else {
        (Ability::Str, str_mod)
    }
}

/// Choose the better of the Strength and Dexterity modifiers (Strength on a
/// tie), with the ability it came from.
pub fn best_of_str_dex(str_mod: i32, dex_mod: i32) -> (r: (Ability, i32))
    ensures
        r.0 == spec_best_of_str_dex(str_mod as int, dex_mod as int).0,
        r.1 == spec_best_of_str_dex(str_mod as int, dex_mod as int).1,
{
    if dex_mod > str_mod {
        (Ability::Dex, dex_mod)
    } else {
        (Ability::Str, str_mod)
    }
}

} // verus!
