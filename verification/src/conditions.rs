//! The condition system: active-condition records, vantage derivation from
//! condition sets, turn-boundary lifecycle (end-of-turn saves and one-turn
//! expiry), and on-hit condition application with a resisting save.

use vstd::prelude::*;

verus! {

use crate::actor::{Ability, SavingThrow};
use crate::dice::{AdMode, Dice, DiceModel, d20_first, model_step};
use crate::events::Event;
use crate::text::copy_name;

/// The kinds of condition the rules know, a closed set.
#[derive(Debug, Clone, Copy, PartialEq, Eq, Structural)]
pub enum ConditionKind {
    Poisoned,
    Prone,
    Restrained,
    Grappled,
}

/// The turn phase at which a fixed-duration condition ends.
#[derive(Debug, Clone, Copy, PartialEq, Eq, Structural)]
pub enum DurationPhase {
    StartOfTurn,
    EndOfTurn,
}

/// How long a condition lasts: an optional one-turn expiry phase, and whether
/// the bearer may save at the end of each of its turns to end it.
#[derive(Debug, Clone, Copy, PartialEq, Eq, Structural)]
pub struct ConditionDuration {
    pub until: Option<DurationPhase>,
    pub save_ends_each_turn: bool,
}

impl Default for ConditionDuration {
    /// Indefinite: no expiry phase, no end-of-turn save.
    fn default() -> (r: Self)
        ensures
            r.until is None,
            !r.save_ends_each_turn,
    {
        ConditionDuration { until: None, save_ends_each_turn: false }
    }
}

/// A condition as an attack or an effect specifies it: its kind, an optional
/// save to resist its application, and its duration rules.
#[derive(Debug, Clone, Copy, PartialEq, Eq, Structural)]
pub struct ConditionSpec {
    pub kind: ConditionKind,
    pub save: Option<SavingThrow>,
    pub duration: ConditionDuration,
}

/// A condition currently active on a combatant.
#[derive(Debug, Clone, Copy, PartialEq, Eq, Structural)]
pub struct ActiveCondition {
    pub kind: ConditionKind,
    pub save_ends_each_turn: bool,
    pub end_phase: Option<DurationPhase>,
    pub end_save: Option<SavingThrow>,
    /// One-shot flag so a one-turn duration expires exactly once.
    pub pending_one_turn: bool,
}

/// The active record a specification creates when it is applied.
pub open spec fn active_from_spec(spec: ConditionSpec) -> ActiveCondition {
    ActiveCondition {
        kind: spec.kind,
        save_ends_each_turn: spec.duration.save_ends_each_turn,
        end_phase: spec.duration.until,
        end_save: spec.save,
        pending_one_turn: spec.duration.until is Some,
    }
}

/// A bare, indefinite active condition of the given kind.
pub open spec fn plain_condition(kind: ConditionKind) -> ActiveCondition {
    ActiveCondition {
        kind,
        save_ends_each_turn: false,
        end_phase: None,
        end_save: None,
        pending_one_turn: false,
    }
}

impl ActiveCondition {
    /// Build the active record for a freshly applied condition: it inherits
    /// the spec's duration rules, and a one-turn duration starts pending.
    pub fn from_spec_for_application(spec: &ConditionSpec) -> (r: Self)
        ensures
            r == active_from_spec(*spec),
    {
        ActiveCondition {
            kind: spec.kind,
            save_ends_each_turn: spec.duration.save_ends_each_turn,
            end_phase: spec.duration.until,
            end_save: spec.save,
            pending_one_turn: spec.duration.until.is_some(),
        }
    }
}

/// Build a bare, indefinite active condition of the given kind.
pub fn make_active_condition(kind: ConditionKind) -> (r: ActiveCondition)
    ensures
        r == plain_condition(kind),
{
    ActiveCondition {
        kind,
        save_ends_each_turn: false,
        end_phase: None,
        end_save: None,
        pending_one_turn: false,
    }
}

/// Net vantage for an attack roll.
#[derive(Debug, Clone, Copy, PartialEq, Eq, Structural)]
pub enum Vantage {
    Normal,
    Advantage,
    Disadvantage,
}

/// How two vantage sources combine: opposite polarities cancel to Normal,
/// Normal is neutral, and a polarity combined with itself keeps it.
pub open spec fn combine_vantage(a: Vantage, b: Vantage) -> Vantage {
    match (a, b) {
        (Vantage::Advantage, Vantage::Disadvantage) => Vantage::Normal,
        (Vantage::Disadvantage, Vantage::Advantage) => Vantage::Normal,
        (Vantage::Normal, x) => x,
        (x, Vantage::Normal) => x,
        (Vantage::Advantage, Vantage::Advantage) => Vantage::Advantage,
        (Vantage::Disadvantage, Vantage::Disadvantage) => Vantage::Disadvantage,
    }
}

impl Vantage {
    /// Combine this vantage source with another.
    pub fn combine(self, other: Vantage) -> (r: Vantage)
        ensures
            r == combine_vantage(self, other),
    {
        match (self, other) {
            (Vantage::Advantage, Vantage::Disadvantage) => Vantage::Normal,
            (Vantage::Disadvantage, Vantage::Advantage) => Vantage::Normal,
            (Vantage::Normal, x) => x,
            (x, Vantage::Normal) => x,
            (Vantage::Advantage, Vantage::Advantage) => Vantage::Advantage,
            (Vantage::Disadvantage, Vantage::Disadvantage) => Vantage::Disadvantage,
        }
    }

    /// The advantage mode a net vantage dictates for the d20 roll.
    pub fn to_admode(self) -> (r: AdMode)
        ensures
            r == spec_vantage_admode(self),
    {
        match self {
            Vantage::Normal => AdMode::Normal,
            Vantage::Advantage => AdMode::Advantage,
            Vantage::Disadvantage => AdMode::Disadvantage,
        }
    }

    /// The vantage an advantage-mode setting contributes.
    pub fn from_admode(mode: AdMode) -> (r: Vantage)
        ensures
            r == spec_admode_vantage(mode),
    {
        match mode {
            AdMode::Normal => Vantage::Normal,
            AdMode::Advantage => Vantage::Advantage,
            AdMode::Disadvantage => Vantage::Disadvantage,
        }
    }
}

/// The advantage mode a net vantage dictates.
pub open spec fn spec_vantage_admode(v: Vantage) -> AdMode {
    match v {
        Vantage::Normal => AdMode::Normal,
        Vantage::Advantage => AdMode::Advantage,
        Vantage::Disadvantage => AdMode::Disadvantage,
    }
}

/// The vantage an advantage-mode setting contributes.
pub open spec fn spec_admode_vantage(m: AdMode) -> Vantage {
    match m {
        AdMode::Normal => Vantage::Normal,
        AdMode::Advantage => Vantage::Advantage,
        AdMode::Disadvantage => Vantage::Disadvantage,
    }
}

/// Combining vantage sources does not depend on their order.
pub proof fn lemma_vantage_combine_commutative(a: Vantage, b: Vantage)
    ensures
        combine_vantage(a, b) == combine_vantage(b, a),
{
}

/// Advantage and Disadvantage cancel to Normal in either order; Normal is
/// neutral on either side; a polarity combined with itself keeps it.
pub proof fn lemma_vantage_combine_laws(x: Vantage)
    ensures
        combine_vantage(Vantage::Advantage, Vantage::Disadvantage) == Vantage::Normal,
        combine_vantage(Vantage::Disadvantage, Vantage::Advantage) == Vantage::Normal,
        combine_vantage(Vantage::Normal, x) == x,
        combine_vantage(x, Vantage::Normal) == x,
        combine_vantage(x, x) == x,
{
}

/// Whether the attack is melee or ranged (decides how a prone target is hit).
#[derive(Debug, Clone, Copy, PartialEq, Eq, Structural)]
pub enum AttackStyle {
    Melee,
    Ranged,
}

/// Whether a condition set impairs its bearer's attacks: poisoned or
/// restrained attackers roll at disadvantage.
pub open spec fn attacker_impaired(cs: Seq<ActiveCondition>) -> bool {
    exists|i: int|
        0 <= i < cs.len() && (cs[i].kind == ConditionKind::Poisoned || cs[i].kind
            == ConditionKind::Restrained)
}

/// The vantage one condition on the target contributes to the attacker: a
/// restrained target gives advantage; a prone target gives advantage to
/// melee attacks and disadvantage to ranged ones.
pub open spec fn target_contribution(c: ActiveCondition, style: AttackStyle) -> Vantage {
    match c.kind {
        ConditionKind::Restrained => Vantage::Advantage,
        ConditionKind::Prone => if style is Melee {
            Vantage::Advantage
        } else {
            Vantage::Disadvantage
        },
        _ => Vantage::Normal,
    }
}

/// The target's conditions folded into a running vantage, front to back.
pub open spec fn fold_target_vantage(
    start: Vantage,
    cs: Seq<ActiveCondition>,
    style: AttackStyle,
) -> Vantage
    decreases cs.len(),
{
    if cs.len() == 0 {
        start
    } else {
        fold_target_vantage(
            combine_vantage(start, target_contribution(cs[0], style)),
            cs.drop_first(),
            style,
        )
    }
}

/// The net vantage the two condition sets give an attack of the given style.
pub open spec fn spec_vantage_from_conditions(
    attacker: Seq<ActiveCondition>,
    target: Seq<ActiveCondition>,
    style: AttackStyle,
) -> Vantage {
    let start = if attacker_impaired(attacker) {
        combine_vantage(Vantage::Normal, Vantage::Disadvantage)
    } else {
        Vantage::Normal
    };
    fold_target_vantage(start, target, style)
}

/// Compute the net vantage for an attack from the conditions on the attacker
/// and on the target.
pub fn vantage_from_conditions(
    attacker_conds: &Vec<ActiveCondition>,
    target_conds: &Vec<ActiveCondition>,
    style: AttackStyle,
) -> (r: Vantage)
    ensures
        r == spec_vantage_from_conditions(attacker_conds@, target_conds@, style),
{
    let mut net = Vantage::Normal;

    let mut impaired = false;
    let mut i: usize = 0;
    while i < attacker_conds.len()
        invariant
            i <= attacker_conds@.len(),
            impaired == exists|j: int|
                0 <= j < i && (attacker_conds@[j].kind == ConditionKind::Poisoned
                    || attacker_conds@[j].kind == ConditionKind::Restrained),
        decreases attacker_conds@.len() - i,
    {
        let k = attacker_conds[i].kind;
        if k == ConditionKind::Poisoned || k == ConditionKind::Restrained {
            impaired = true;
        }
        i = i + 1;
    }
    if impaired {
        net = net.combine(Vantage::Disadvantage);
    }

    let ghost start = net;
    proof {
        assert(target_conds@.skip(0) =~= target_conds@);
    }
    let mut i: usize = 0;
    while i < target_conds.len()
        invariant
            i <= target_conds@.len(),
            fold_target_vantage(start, target_conds@, style) == fold_target_vantage(
                net,
                target_conds@.skip(i as int),
                style,
            ),
        decreases target_conds@.len() - i,
    {
        let ghost pre_net = net;
        let c = target_conds[i];
        match c.kind {
            ConditionKind::Restrained => {
                net = net.combine(Vantage::Advantage);
            },
            ConditionKind::Prone => {
                match style {
                    AttackStyle::Melee => {
                        net = net.combine(Vantage::Advantage);
                    },
                    AttackStyle::Ranged => {
                        net = net.combine(Vantage::Disadvantage);
                    },
                }
            },
            _ => {},
        }
        proof {
            let rest = target_conds@.skip(i as int);
            assert(rest[0] == target_conds@[i as int]);
            assert(rest.drop_first() =~= target_conds@.skip(i as int + 1));
            assert(net == combine_vantage(pre_net, target_contribution(rest[0], style)));
        }
        i = i + 1;
    }
    proof {
        assert(target_conds@.skip(target_conds@.len() as int).len() == 0);
    }
    net
}

/// Lifecycle hooks at turn boundaries.
#[derive(Debug, Clone, Copy, PartialEq, Eq, Structural)]
pub enum TurnBoundary {
    StartOfTurn,
    EndOfTurn,
}

/// A combatant's saving-throw modifiers, one per ability. This stands in for
/// the combatant when the condition system rolls its end-of-turn and
/// resisting saves.
#[derive(Debug, Clone, Copy, PartialEq, Eq, Structural)]
pub struct SaveModifiers {
    pub str_: i32,
    pub dex: i32,
    pub con: i32,
    pub int_: i32,
    pub wis: i32,
    pub cha: i32,
}

/// The modifier a `SaveModifiers` holds for an ability.
pub open spec fn spec_save_modifier(m: SaveModifiers, a: Ability) -> int {
    match a {
        Ability::Str => m.str_ as int,
        Ability::Dex => m.dex as int,
        Ability::Con => m.con as int,
        Ability::Int => m.int_ as int,
        Ability::Wis => m.wis as int,
        Ability::Cha => m.cha as int,
    }
}

/// Modifiers small enough that a d20 roll can be added without overflow.
pub open spec fn save_modifiers_bounded(m: SaveModifiers) -> bool {
    &&& -0x1000_0000 <= m.str_ <= 0x1000_0000
    &&& -0x1000_0000 <= m.dex <= 0x1000_0000
    &&& -0x1000_0000 <= m.con <= 0x1000_0000
    &&& -0x1000_0000 <= m.int_ <= 0x1000_0000
    &&& -0x1000_0000 <= m.wis <= 0x1000_0000
    &&& -0x1000_0000 <= m.cha <= 0x1000_0000
}

impl SaveModifiers {
    /// Modifiers that are all zero.
    pub fn zero() -> (r: SaveModifiers)
        ensures
            forall|a: Ability| spec_save_modifier(r, a) == 0,
            save_modifiers_bounded(r),
    {
        SaveModifiers { str_: 0, dex: 0, con: 0, int_: 0, wis: 0, cha: 0 }
    }

    /// The modifier for an ability.
    pub fn modifier(&self, a: Ability) -> (r: i32)
        ensures
            r == spec_save_modifier(*self, a),
    {
        match a {
            Ability::Str => self.str_,
            Ability::Dex => self.dex,
            Ability::Con => self.con,
            Ability::Int => self.int_,
            Ability::Wis => self.wis,
            Ability::Cha => self.cha,
        }
    }
}

/// Whether the condition at the head of the list rolls an end-of-turn save.
pub open spec fn rolls_end_save(c: ActiveCondition) -> bool {
    c.save_ends_each_turn && c.end_save is Some
}

/// The end-of-turn save pass over a condition list, front to back: each
/// condition flagged save-ends rolls a Normal d20 plus the bearer's modifier
/// for its stored save, and is removed exactly when the total reaches the DC.
/// Yields the surviving conditions, in order, and the dice stream after all
/// the rolls.
pub open spec fn save_pass(
    cs: Seq<ActiveCondition>,
    mods: SaveModifiers,
    m: DiceModel,
) -> (Seq<ActiveCondition>, DiceModel)
    decreases cs.len(),
{
    if cs.len() == 0 {
        (Seq::empty(), m)
    } else {
        let c = cs[0];
        if rolls_end_save(c) {
            let st = c.end_save.unwrap();
            let total = d20_first(m) + spec_save_modifier(mods, st.ability);
            let rec = save_pass(cs.drop_first(), mods, model_step(m, 1, 20));
            if total >= st.dc {
                rec
            } else {
                (seq![c] + rec.0, rec.1)
            }
        } else {
            let rec = save_pass(cs.drop_first(), mods, m);
            (seq![c] + rec.0, rec.1)
        }
    }
}

/// Whether a condition expires at this phase: it carries the one-shot
/// pending flag and its stored phase is the one being processed.
pub open spec fn expires_at(c: ActiveCondition, phase: DurationPhase) -> bool {
    c.pending_one_turn && c.end_phase == Some(phase)
}

/// The phase-expiry pass: every condition that expires at this phase is
/// removed; the rest keep their order.
pub open spec fn expiry_pass(cs: Seq<ActiveCondition>, phase: DurationPhase) -> Seq<
    ActiveCondition,
>
    decreases cs.len(),
{
    if cs.len() == 0 {
        Seq::empty()
    } else if expires_at(cs[0], phase) {
        expiry_pass(cs.drop_first(), phase)
    } else {
        seq![cs[0]] + expiry_pass(cs.drop_first(), phase)
    }
}

/// The turn phase a boundary processes.
pub open spec fn boundary_phase(b: TurnBoundary) -> DurationPhase {
    match b {
        TurnBoundary::StartOfTurn => DurationPhase::StartOfTurn,
        TurnBoundary::EndOfTurn => DurationPhase::EndOfTurn,
    }
}

/// The condition list a turn boundary leaves behind: at the end of a turn
/// the save pass runs first, then the phase-expiry pass; at the start of a
/// turn only the expiry pass runs.
pub open spec fn boundary_conditions(
    cs: Seq<ActiveCondition>,
    boundary: TurnBoundary,
    mods: SaveModifiers,
    m: DiceModel,
) -> Seq<ActiveCondition> {
    match boundary {
        TurnBoundary::EndOfTurn => expiry_pass(
            save_pass(cs, mods, m).0,
            DurationPhase::EndOfTurn,
        ),
        TurnBoundary::StartOfTurn => expiry_pass(cs, DurationPhase::StartOfTurn),
    }
}

/// The dice stream a turn boundary leaves behind.
pub open spec fn boundary_dice(
    cs: Seq<ActiveCondition>,
    boundary: TurnBoundary,
    mods: SaveModifiers,
    m: DiceModel,
) -> DiceModel {
    match boundary {
        TurnBoundary::EndOfTurn => save_pass(cs, mods, m).1,
        TurnBoundary::StartOfTurn => m,
    }
}

/// Process a turn boundary for one combatant: at the end of its turn, roll
/// each save-ends condition's saving throw (removing it on success), then
/// remove conditions whose one-turn duration expires at this phase; at the
/// start of its turn, only the expiry pass runs. Every roll and removal is
/// reported in the log.
pub fn process_turn_boundary(
    boundary: TurnBoundary,
    actor_name: &str,
    actor_conds: &mut Vec<ActiveCondition>,
    mods: &SaveModifiers,
    dice: &mut Dice,
    log: &mut Vec<Event>,
)
    requires
        save_modifiers_bounded(*mods),
    ensures
        final(actor_conds)@ == boundary_conditions(
            old(actor_conds)@,
            boundary,
            *mods,
            old(dice)@,
        ),
        final(dice)@ == boundary_dice(old(actor_conds)@, boundary, *mods, old(dice)@),
        final(log)@.len() >= old(log)@.len(),
        final(log)@.subrange(0, old(log)@.len() as int) == old(log)@,
        boundary is StartOfTurn ==> forall|c: ActiveCondition|
            old(actor_conds)@.contains(c) && expires_at(c, DurationPhase::StartOfTurn)
                ==> exists|t: int|
                old(log)@.len() <= t < final(log)@.len() && (#[trigger] final(log)@[t] matches
                Event::ConditionExpired { name, kind, phase } && name@ == actor_name@ && kind
                    == c.kind && phase == DurationPhase::StartOfTurn),
        boundary is EndOfTurn ==> forall|c: ActiveCondition|
            old(actor_conds)@.contains(c) && rolls_end_save(c) ==> exists|t: int|
                old(log)@.len() <= t < final(log)@.len() && (#[trigger] final(log)@[t] matches
                Event::SaveAttempt { name, against, ability, dc, .. } && name@ == actor_name@
                    && against == c.kind && ability == c.end_save.unwrap().ability && dc
                    == c.end_save.unwrap().dc),
{
    let ghost pre_log = log@;
    if matches!(boundary, TurnBoundary::EndOfTurn) {
        let ghost cs0 = actor_conds@;
        let ghost m0 = dice@;
        let mut kept: Vec<ActiveCondition> = Vec::new();
        proof {
            assert(cs0.skip(0) =~= cs0);
            assert(Seq::<ActiveCondition>::empty() + save_pass(cs0, *mods, m0).0 =~= save_pass(
                cs0,
                *mods,
                m0,
            ).0);
            assert(pre_log.subrange(0, pre_log.len() as int) =~= pre_log);
        }
        let mut i: usize = 0;
        while i < actor_conds.len()
            invariant
                save_modifiers_bounded(*mods),
                i <= cs0.len(),
                actor_conds@ == cs0,
                save_pass(cs0, *mods, m0).0 == kept@ + save_pass(
                    cs0.skip(i as int),
                    *mods,
                    dice@,
                ).0,
                save_pass(cs0, *mods, m0).1 == save_pass(cs0.skip(i as int), *mods, dice@).1,
                log@.len() >= pre_log.len(),
                log@.subrange(0, pre_log.len() as int) == pre_log,
                forall|c: ActiveCondition|
                    cs0.take(i as int).contains(c) && rolls_end_save(c) ==> exists|t: int|
                        pre_log.len() <= t < log@.len() && (#[trigger] log@[t] matches
                        Event::SaveAttempt { name, against, ability, dc, .. } && name@
                            == actor_name@ && against == c.kind && ability
                            == c.end_save.unwrap().ability && dc == c.end_save.unwrap().dc),
            decreases cs0.len() - i,
        {
            let c = actor_conds[i];
            let ghost rest = cs0.skip(i as int);
            let ghost lw = log@;
            proof {
                assert(rest[0] == cs0[i as int]);
                assert(rest.drop_first() =~= cs0.skip(i as int + 1));
            }
            if c.save_ends_each_turn && c.end_save.is_some() {
                let st = c.end_save.unwrap();
                let ghost m_pre = dice@;
                let roll = dice.d20(AdMode::Normal) as i32;
                let total = roll + mods.modifier(st.ability);
                let success = total >= st.dc;
                log.push(
                    Event::SaveAttempt {
                        name: copy_name(actor_name),
                        against: c.kind,
                        ability: st.ability,
                        dc: st.dc,
                        roll,
                        total,
                        passed: success,
                    },
                );
                if success {
                    log.push(Event::ConditionEnded { name: copy_name(actor_name), kind: c.kind });
                } else {
                    kept.push(c);
                    proof {
                        assert(kept@ =~= kept@.drop_last() + seq![c]);
                        assert((kept@.drop_last() + seq![c]) + save_pass(
                            cs0.skip(i as int + 1),
                            *mods,
                            dice@,
                        ).0 =~= kept@.drop_last() + (seq![c] + save_pass(
                            cs0.skip(i as int + 1),
                            *mods,
                            dice@,
                        ).0));
                    }
                }
                proof {
                    assert(log@.subrange(0, pre_log.len() as int) =~= pre_log);
                }
            } else {
                kept.push(c);
                proof {
                    assert(!rolls_end_save(c));
                    assert(kept@ =~= kept@.drop_last() + seq![c]);
                    assert((kept@.drop_last() + seq![c]) + save_pass(
                        cs0.skip(i as int + 1),
                        *mods,
                        dice@,
                    ).0 =~= kept@.drop_last() + (seq![c] + save_pass(
                        cs0.skip(i as int + 1),
                        *mods,
                        dice@,
                    ).0));
                }
            }
            proof {
                assert forall|cc: ActiveCondition|
                    cs0.take(i as int + 1).contains(cc) && rolls_end_save(cc) implies exists|
                    t: int,
                |
                    pre_log.len() <= t < log@.len() && (#[trigger] log@[t] matches
                    Event::SaveAttempt { name, against, ability, dc, .. } && name@ == actor_name@
                        && against == cc.kind && ability == cc.end_save.unwrap().ability && dc
                        == cc.end_save.unwrap().dc) by {
                    let k = choose|k: int|
                        0 <= k < cs0.take(i as int + 1).len() && #[trigger] cs0.take(
                            i as int + 1,
                        )[k] == cc;
                    if k < i {
                        assert(cs0.take(i as int)[k] == cc);
                        assert(cs0.take(i as int).contains(cc));
                        let t = choose|t: int|
                            pre_log.len() <= t < lw.len() && (#[trigger] lw[t] matches
                            Event::SaveAttempt { name, against, ability, dc, .. } && name@
                                == actor_name@ && against == cc.kind && ability
                                == cc.end_save.unwrap().ability && dc == cc.end_save.unwrap().dc);
                        assert(log@[t] == lw[t]);
                    } else {
                        assert(cc == c);
                        if rolls_end_save(cc) {
                            assert(log@[lw.len() as int] matches Event::SaveAttempt {
                                name,
                                against,
                                ability,
                                dc,
                                ..
                            } && name@ == actor_name@ && against == cc.kind && ability
                                == cc.end_save.unwrap().ability && dc == cc.end_save.unwrap().dc);
                        }
                    }
                }
            }
            i = i + 1;
        }
        proof {
            assert(cs0.skip(cs0.len() as int).len() == 0);
            assert(save_pass(cs0, *mods, m0).0 =~= kept@);
            assert(cs0.take(cs0.len() as int) =~= cs0);
        }
        *actor_conds = kept;
    }

    let ghost mid_log = log@;
    let phase = match boundary {
        TurnBoundary::StartOfTurn => DurationPhase::StartOfTurn,
        TurnBoundary::EndOfTurn => DurationPhase::EndOfTurn,
    };

    let ghost cs1 = actor_conds@;
    let mut kept: Vec<ActiveCondition> = Vec::new();
    proof {
        assert(cs1.skip(0) =~= cs1);
        assert(Seq::<ActiveCondition>::empty() + expiry_pass(cs1, phase) =~= expiry_pass(
            cs1,
            phase,
        ));
        assert(log@.subrange(0, pre_log.len() as int) =~= pre_log);
        assert(log@.subrange(0, mid_log.len() as int) =~= mid_log);
    }
    let mut i: usize = 0;
    while i < actor_conds.len()
        invariant
            i <= cs1.len(),
            actor_conds@ == cs1,
            expiry_pass(cs1, phase) == kept@ + expiry_pass(cs1.skip(i as int), phase),
            log@.len() >= pre_log.len(),
            log@.subrange(0, pre_log.len() as int) == pre_log,
            log@.len() >= mid_log.len(),
            log@.subrange(0, mid_log.len() as int) == mid_log,
            forall|c: ActiveCondition|
                cs1.take(i as int).contains(c) && expires_at(c, phase) ==> exists|t: int|
                    pre_log.len() <= t < log@.len() && (#[trigger] log@[t] matches
                    Event::ConditionExpired { name, kind, phase: ph } && name@ == actor_name@
                        && kind == c.kind && ph == phase),
        decreases cs1.len() - i,
    {
        let c = actor_conds[i];
        let ghost rest = cs1.skip(i as int);
        let ghost lw = log@;
        proof {
            assert(rest[0] == cs1[i as int]);
            assert(rest.drop_first() =~= cs1.skip(i as int + 1));
        }
        if c.pending_one_turn && phase_matches(&c.end_phase, phase) {
            log.push(Event::ConditionExpired { name: copy_name(actor_name), kind: c.kind, phase });
            proof {
                assert(log@.subrange(0, pre_log.len() as int) =~= pre_log);
                assert(log@.subrange(0, mid_log.len() as int) =~= mid_log);
            }
        } else {
            kept.push(c);
            proof {
                assert(!expires_at(c, phase));
                assert(kept@ =~= kept@.drop_last() + seq![c]);
                assert((kept@.drop_last() + seq![c]) + expiry_pass(cs1.skip(i as int + 1), phase)
                    =~= kept@.drop_last() + (seq![c] + expiry_pass(cs1.skip(i as int + 1), phase)));
            }
        }
        proof {
            assert forall|cc: ActiveCondition|
                cs1.take(i as int + 1).contains(cc) && expires_at(cc, phase) implies exists|t: int|
                pre_log.len() <= t < log@.len() && (#[trigger] log@[t] matches
                Event::ConditionExpired { name, kind, phase: ph } && name@ == actor_name@ && kind
                    == cc.kind && ph == phase) by {
                let k = choose|k: int|
                    0 <= k < cs1.take(i as int + 1).len() && #[trigger] cs1.take(i as int + 1)[k]
                        == cc;
                if k < i {
                    assert(cs1.take(i as int)[k] == cc);
                    assert(cs1.take(i as int).contains(cc));
                    let t = choose|t: int|
                        pre_log.len() <= t < lw.len() && (#[trigger] lw[t] matches
                        Event::ConditionExpired { name, kind, phase: ph } && name@ == actor_name@
                            && kind == cc.kind && ph == phase);
                    assert(log@[t] == lw[t]);
                } else {
                    assert(cc == c);
                    assert(log@[lw.len() as int] matches Event::ConditionExpired {
                        name,
                        kind,
                        phase: ph,
                    } && name@ == actor_name@ && kind == cc.kind && ph == phase);
                }
            }
        }
        i = i + 1;
    }
    proof {
        assert(cs1.skip(cs1.len() as int).len() == 0);
        assert(expiry_pass(cs1, phase) =~= kept@);
        assert(cs1.take(cs1.len() as int) =~= cs1);
        if boundary is EndOfTurn {
            crate::events::lemma_prefix_preserves_index(mid_log, log@);
            assert forall|c: ActiveCondition|
                old(actor_conds)@.contains(c) && rolls_end_save(c) implies exists|t: int|
                old(log)@.len() <= t < log@.len() && (#[trigger] log@[t] matches
                Event::SaveAttempt { name, against, ability, dc, .. } && name@ == actor_name@
                    && against == c.kind && ability == c.end_save.unwrap().ability && dc
                    == c.end_save.unwrap().dc) by {
                let t = choose|t: int|
                    pre_log.len() <= t < mid_log.len() && (#[trigger] mid_log[t] matches
                    Event::SaveAttempt { name, against, ability, dc, .. } && name@ == actor_name@
                        && against == c.kind && ability == c.end_save.unwrap().ability && dc
                        == c.end_save.unwrap().dc);
                assert(log@[t] == mid_log[t]);
            }
        }
    }
    *actor_conds = kept;
}

/// Whether an optional stored phase is exactly the phase being processed.
fn phase_matches(stored: &Option<DurationPhase>, phase: DurationPhase) -> (r: bool)
    ensures
        r == (*stored == Some(phase)),
{
    match stored {
        Some(p) => *p == phase,
        None => false,
    }
}

/// Whether an on-hit condition application is resisted: the spec demands a
/// save and the target's d20 plus its modifier reaches the DC.
pub open spec fn application_resisted(
    spec: ConditionSpec,
    mods: SaveModifiers,
    m: DiceModel,
) -> bool {
    spec.save is Some && d20_first(m) + spec_save_modifier(mods, spec.save.unwrap().ability)
        >= spec.save.unwrap().dc
}

/// Apply an on-hit condition to the target, unless a resisting save stops
/// it: if the spec carries a save, the target rolls it first and success
/// aborts the application with no state change; otherwise (or on a failed
/// save) the target gains a fresh active condition built from the spec.
pub fn maybe_apply_on_hit_condition(
    target_name: &str,
    target_conditions: &mut Vec<ActiveCondition>,
    spec: &ConditionSpec,
    mods: &SaveModifiers,
    dice: &mut Dice,
    log: &mut Vec<Event>,
)
    requires
        save_modifiers_bounded(*mods),
    ensures
        application_resisted(*spec, *mods, old(dice)@) ==> final(target_conditions)@ == old(
            target_conditions,
        )@,
        !application_resisted(*spec, *mods, old(dice)@) ==> final(target_conditions)@ == old(
            target_conditions,
        )@.push(active_from_spec(*spec)),
        final(dice)@ == if spec.save is Some {
            model_step(old(dice)@, 1, 20)
        } else {
            old(dice)@
        },
        final(log)@.len() >= old(log)@.len(),
        final(log)@.subrange(0, old(log)@.len() as int) == old(log)@,
        (spec.save is Some && application_resisted(*spec, *mods, old(dice)@)) ==> final(log)@.len() == old(log)@.len() + 1 && (final(log)@.last() matches Event::ConditionResisted {
            name: nm,
            kind,
            ability,
            dc,
            roll,
            total,
        } && nm@ == target_name@ && kind == spec.kind && ability == spec.save.unwrap().ability
            && dc == spec.save.unwrap().dc && roll == d20_first(old(dice)@) as int && total == roll
            + spec_save_modifier(*mods, spec.save.unwrap().ability)),
        (spec.save is Some && !application_resisted(*spec, *mods, old(dice)@)) ==> final(log)@.len() == old(log)@.len() + 2 && (final(log)@[old(log)@.len() as int] matches
            Event::SaveAttempt { name: nm, against, ability, dc, roll, total, passed } && nm@
            == target_name@ && against == spec.kind && ability == spec.save.unwrap().ability && dc
            == spec.save.unwrap().dc && roll == d20_first(old(dice)@) as int && total == roll
            + spec_save_modifier(*mods, spec.save.unwrap().ability) && !passed),
        spec.save is None ==> final(log)@.len() == old(log)@.len() + 1,
        !application_resisted(*spec, *mods, old(dice)@) ==> (final(log)@.last() matches
            Event::ConditionGained { name: nm, kind } && nm@ == target_name@ && kind == spec.kind),
{
    let ghost pre_log = log@;
    if spec.save.is_some() {
        let save = spec.save.unwrap();
        let roll = dice.d20(AdMode::Normal) as i32;
        let total = roll + mods.modifier(save.ability);
        let success = total >= save.dc;
        if success {
            log.push(
                Event::ConditionResisted {
                    name: copy_name(target_name),
                    kind: spec.kind,
                    ability: save.ability,
                    dc: save.dc,
                    roll,
                    total,
                },
            );
            proof {
                assert(log@.subrange(0, pre_log.len() as int) =~= pre_log);
            }
            return ;
        }
        log.push(
            Event::SaveAttempt {
                name: copy_name(target_name),
                against: spec.kind,
                ability: save.ability,
                dc: save.dc,
                roll,
                total,
                passed: false,
            },
        );
    }
    let active = ActiveCondition::from_spec_for_application(spec);
    target_conditions.push(active);
    log.push(Event::ConditionGained { name: copy_name(target_name), kind: spec.kind });
    proof {
        assert(log@.subrange(0, pre_log.len() as int) =~= pre_log);
    }
}

/// After a boundary, no surviving condition still carries a save whose DC is
/// within reach of the worst roll: a save-ends condition whose DC is at most
/// 1 plus the bearer's modifier is always removed at the first end of turn.
pub proof fn lemma_low_dc_save_removed(
    cs: Seq<ActiveCondition>,
    mods: SaveModifiers,
    m: DiceModel,
    c: ActiveCondition,
)
    requires
        boundary_conditions(cs, TurnBoundary::EndOfTurn, mods, m).contains(c),
    ensures
        rolls_end_save(c) ==> c.end_save.unwrap().dc > 1 + spec_save_modifier(
            mods,
            c.end_save.unwrap().ability,
        ),
{
    lemma_expiry_pass_subset(save_pass(cs, mods, m).0, DurationPhase::EndOfTurn, c);
    lemma_save_pass_removes_low_dc(cs, mods, m, c);
}

/// Every condition the save pass keeps comes from the input list, and none
/// of them has a DC at most 1 plus its modifier (the worst roll is a 1, so
/// such a save cannot fail).
proof fn lemma_save_pass_removes_low_dc(
    cs: Seq<ActiveCondition>,
    mods: SaveModifiers,
    m: DiceModel,
    c: ActiveCondition,
)
    requires
        save_pass(cs, mods, m).0.contains(c),
    ensures
        cs.contains(c),
        rolls_end_save(c) ==> c.end_save.unwrap().dc > 1 + spec_save_modifier(
            mods,
            c.end_save.unwrap().ability,
        ),
    decreases cs.len(),
{
    if cs.len() == 0 {
    } else {
        let head = cs[0];
        if rolls_end_save(head) {
            let st = head.end_save.unwrap();
            let total = d20_first(m) + spec_save_modifier(mods, st.ability);
            let rec = save_pass(cs.drop_first(), mods, model_step(m, 1, 20));
            if total >= st.dc {
                lemma_save_pass_removes_low_dc(cs.drop_first(), mods, model_step(m, 1, 20), c);
                assert(cs.drop_first().contains(c));
                lemma_drop_first_contains(cs, c);
            } else {
                if c == head {
                    assert(d20_first(m) >= 1);
                    assert(st.dc > d20_first(m) + spec_save_modifier(mods, st.ability));
                    assert(cs.contains(c)) by {
                        assert(cs[0] == c);
                    };
                } else {
                    assert((seq![head] + rec.0).contains(c));
                    assert(rec.0.contains(c)) by {
                        let k = choose|k: int|
                            0 <= k < (seq![head] + rec.0).len() && (seq![head] + rec.0)[k] == c;
                        assert((seq![head] + rec.0)[k] == rec.0[k - 1]);
                    };
                    lemma_save_pass_removes_low_dc(cs.drop_first(), mods, model_step(m, 1, 20), c);
                    lemma_drop_first_contains(cs, c);
                }
            }
        } else {
            let rec = save_pass(cs.drop_first(), mods, m);
            if c == head {
                assert(cs.contains(c)) by {
                    assert(cs[0] == c);
                };
                if rolls_end_save(c) {
                    assert(false);
                }
            } else {
                assert((seq![head] + rec.0).contains(c));
                assert(rec.0.contains(c)) by {
                    let k = choose|k: int|
                        0 <= k < (seq![head] + rec.0).len() && (seq![head] + rec.0)[k] == c;
                    assert((seq![head] + rec.0)[k] == rec.0[k - 1]);
                };
                lemma_save_pass_removes_low_dc(cs.drop_first(), mods, m, c);
                lemma_drop_first_contains(cs, c);
            }
        }
    }
}

/// Whatever the tail contains, the whole list contains.
proof fn lemma_drop_first_contains(cs: Seq<ActiveCondition>, c: ActiveCondition)
    requires
        cs.len() > 0,
        cs.drop_first().contains(c),
    ensures
        cs.contains(c),
{
    let k = choose|k: int| 0 <= k < cs.drop_first().len() && cs.drop_first()[k] == c;
    assert(cs[k + 1] == c);
}

/// The expiry pass only removes: everything it keeps was in the input.
pub proof fn lemma_expiry_pass_subset(
    cs: Seq<ActiveCondition>,
    phase: DurationPhase,
    c: ActiveCondition,
)
    requires
        expiry_pass(cs, phase).contains(c),
    ensures
        cs.contains(c),
        !expires_at(c, phase),
    decreases cs.len(),
{
    if cs.len() == 0 {
    } else {
        let head = cs[0];
        if expires_at(head, phase) {
            lemma_expiry_pass_subset(cs.drop_first(), phase, c);
            lemma_drop_first_contains(cs, c);
        } else {
            let rec = expiry_pass(cs.drop_first(), phase);
            if c == head {
                assert(cs.contains(c)) by {
                    assert(cs[0] == c);
                };
            } else {
                assert((seq![head] + rec).contains(c));
                assert(rec.contains(c)) by {
                    let k = choose|k: int|
                        0 <= k < (seq![head] + rec).len() && (seq![head] + rec)[k] == c;
                    assert((seq![head] + rec)[k] == rec[k - 1]);
                };
                lemma_expiry_pass_subset(cs.drop_first(), phase, c);
                lemma_drop_first_contains(cs, c);
            }
        }
    }
}

/// A turn boundary never adds a condition, and after it has processed a
/// phase no condition pending expiry at that phase remains: a one-turn
/// duration ends exactly once and cannot reappear.
pub proof fn lemma_boundary_removes_pending(
    cs: Seq<ActiveCondition>,
    boundary: TurnBoundary,
    mods: SaveModifiers,
    m: DiceModel,
    c: ActiveCondition,
)
    requires
        boundary_conditions(cs, boundary, mods, m).contains(c),
    ensures
        cs.contains(c),
        !expires_at(c, boundary_phase(boundary)),
{
    match boundary {
        TurnBoundary::EndOfTurn => {
            lemma_expiry_pass_subset(save_pass(cs, mods, m).0, DurationPhase::EndOfTurn, c);
            lemma_save_pass_removes_low_dc(cs, mods, m, c);
        },
        TurnBoundary::StartOfTurn => {
            lemma_expiry_pass_subset(cs, DurationPhase::StartOfTurn, c);
        },
    }
}


/// The condition list with every record of one kind removed.
pub open spec fn remove_kind(cs: Seq<ActiveCondition>, k: ConditionKind) -> Seq<ActiveCondition>
    decreases cs.len(),
{
    if cs.len() == 0 {
        Seq::empty()
    } else if cs[0].kind == k {
        remove_kind(cs.drop_first(), k)
    } else {
        seq![cs[0]] + remove_kind(cs.drop_first(), k)
    }
}

/// Try to escape a grapple at the end of the bearer's turn. The grappler
/// rolls to maintain the hold against the bearer's better of Strength or
/// Dexterity; a tie favors the escaping creature. Nothing is rolled if the
/// bearer is not grappled. On escape every Grappled record is removed.
pub fn attempt_escape_grapple_end_of_turn(
    name: &str,
    escaper_str_mod: i32,
    escaper_dex_mod: i32,
    grappler_mod: i32,
    conds: &mut Vec<ActiveCondition>,
    dice: &mut Dice,
    log: &mut Vec<Event>,
) -> (escaped: bool)
    requires
        -0x1000_0000 <= escaper_str_mod <= 0x1000_0000,
        -0x1000_0000 <= escaper_dex_mod <= 0x1000_0000,
        -0x1000_0000 <= grappler_mod <= 0x1000_0000,
    ensures
        !crate::life::has_kind(old(conds)@, ConditionKind::Grappled) ==> {
            &&& !escaped
            &&& final(conds)@ == old(conds)@
            &&& final(dice)@ == old(dice)@
            &&& final(log)@ == old(log)@
        },
        crate::life::has_kind(old(conds)@, ConditionKind::Grappled) ==> {
            &&& escaped == (crate::checks::spec_contest(
                old(dice)@,
                grappler_mod as int,
                crate::checks::spec_best_of_str_dex(
                    escaper_str_mod as int,
                    escaper_dex_mod as int,
                ).1,
            ) != crate::checks::ContestOutcome::AttackerWins)
            &&& final(conds)@ == if escaped {
                remove_kind(old(conds)@, ConditionKind::Grappled)
            } else {
                old(conds)@
            }
            &&& final(dice)@ == model_step(model_step(old(dice)@, 1, 20), 1, 20)
        },
        final(log)@.len() >= old(log)@.len(),
        final(log)@.subrange(0, old(log)@.len() as int) == old(log)@,
{
    if !crate::life::has_condition_kind(conds, ConditionKind::Grappled) {
        return false;
    }
    let ghost pre_log = log@;
    let (_, esc_mod) = crate::checks::best_of_str_dex(escaper_str_mod, escaper_dex_mod);
    let outcome = crate::checks::contested_check(dice, grappler_mod, esc_mod, name, name, log);
    if matches!(outcome, crate::checks::ContestOutcome::AttackerWins) {
        proof {
            assert(log@.subrange(0, pre_log.len() as int) =~= pre_log);
        }
        return false;
    }
    let ghost cs0 = conds@;
    let mut kept: Vec<ActiveCondition> = Vec::new();
    proof {
        assert(cs0.skip(0) =~= cs0);
        assert(Seq::<ActiveCondition>::empty() + remove_kind(cs0, ConditionKind::Grappled)
            =~= remove_kind(cs0, ConditionKind::Grappled));
    }
    let mut i: usize = 0;
    while i < conds.len()
        invariant
            i <= cs0.len(),
            conds@ == cs0,
            remove_kind(cs0, ConditionKind::Grappled) == kept@ + remove_kind(
                cs0.skip(i as int),
                ConditionKind::Grappled,
            ),
        decreases cs0.len() - i,
    {
        let c = conds[i];
        proof {
            let rest = cs0.skip(i as int);
            assert(rest[0] == cs0[i as int]);
            assert(rest.drop_first() =~= cs0.skip(i as int + 1));
        }
        if !(c.kind == ConditionKind::Grappled) {
            kept.push(c);
            proof {
                assert(kept@ =~= kept@.drop_last() + seq![c]);
                assert((kept@.drop_last() + seq![c]) + remove_kind(
                    cs0.skip(i as int + 1),
                    ConditionKind::Grappled,
                ) =~= kept@.drop_last() + (seq![c] + remove_kind(
                    cs0.skip(i as int + 1),
                    ConditionKind::Grappled,
                )));
            }
        }
        i = i + 1;
    }
    proof {
        assert(cs0.skip(cs0.len() as int).len() == 0);
        assert(remove_kind(cs0, ConditionKind::Grappled) =~= kept@);
    }
    *conds = kept;
    log.push(Event::ConditionEnded { name: copy_name(name), kind: ConditionKind::Grappled });
    proof {
        assert(log@.subrange(0, pre_log.len() as int) =~= pre_log);
    }
    true
}

} // verus!
