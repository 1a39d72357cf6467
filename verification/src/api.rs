//! The combat orchestrator: duel (1v1) and encounter (1vN) simulations,
//! initiative ordering, enemy target selection, and Monte Carlo batches.

use vstd::prelude::*;

verus! {

use vstd::assert_multisets_equal;
use vstd::string::StringSliceAdditionalSpecFns;

use crate::actor::{Ability, AbilityScores, Actor};
use crate::conditions::{
    ActiveCondition, AttackStyle, ConditionKind, ConditionSpec, SaveModifiers, TurnBoundary,
    Vantage, active_from_spec, application_resisted, boundary_conditions, boundary_dice,
    combine_vantage, maybe_apply_on_hit_condition, plain_condition, process_turn_boundary,
    save_modifiers_bounded, spec_admode_vantage, spec_vantage_admode,
    spec_vantage_from_conditions,
};
use crate::dice::{AdMode, Dice, DiceModel, d20_kept, d20_step, model_next, model_step};
use crate::events::Event;
use crate::life::{
    Health, LifeState, apply_damage, death_save_transition, death_saves_bounded, has_kind, heal,
    hp_after_damage, hp_after_heal, process_death_save_start_of_turn, qualifies_for_death_save,
};
use crate::rules::{
    Cover, DamageDice, DamageType, Weapon, ability_modifier, adjust_damage_by_type, adjusted_damage, attack,
    cover_bonus, damage, dice_step_n, dice_sum, find_weapon, lemma_dice_sum_bounds,
    preset_damage_type, rolled_count, spec_parse_damage_type, spec_preset_damage_type,
    weapon_name_matches,
};
use crate::text::{chars_bytes, copy_name, eq_ignore_case};

/// The hard ceiling on duel rounds; an encounter allows four times as many
/// turns because each round covers every participant.
pub const MAX_ROUNDS: u32 = 30;

/// The actor's fixed armor class until armor is modeled.
pub const DEFAULT_ACTOR_AC: i32 = 16;

/// The actor's default hit points until hit dice are modeled.
pub const DEFAULT_ACTOR_HP: i32 = 12;

/// The flat healing of the one-shot reactive potion.
pub const POTION_HEAL: i32 = 7;

/// Who won a duel.
#[derive(Debug, Clone, Copy, PartialEq, Eq, Structural)]
pub enum Winner {
    Actor,
    Enemy,
    Draw,
}

/// Why a simulation could not start: configuration and content errors are
/// surfaced before any dice are rolled.
#[derive(Debug, Clone, Copy, PartialEq, Eq, Structural)]
pub enum SimError {
    /// The target declares no attacks.
    TargetHasNoAttacks,
    /// No weapon of the requested name exists in the weapon list.
    WeaponNotFound,
    /// A damage-dice expression with zero sides cannot be rolled.
    InvalidDice,
    /// The encounter contains no enemies.
    NoEnemies,
}

/// One attack in a target's list.
#[derive(Debug, Clone)]
pub struct TargetAttack {
    pub name: String,
    pub to_hit: i32,
    pub dice: DamageDice,
    pub damage_type: Option<DamageType>,
    pub ranged: bool,
    pub apply_condition: Option<ConditionSpec>,
}

/// A target or enemy definition: defense, hit points, abilities, attacks,
/// damage-type sets (as names), starting conditions and cover.
#[derive(Debug, Clone)]
pub struct Target {
    pub name: String,
    pub ac: i32,
    pub hp: i32,
    pub dex_mod: i32,
    pub abilities: Option<AbilityScores>,
    pub attacks: Vec<TargetAttack>,
    pub resistances: Vec<String>,
    pub vulnerabilities: Vec<String>,
    pub immunities: Vec<String>,
    pub conditions: Vec<ConditionKind>,
    pub cover: Cover,
}

/// Numeric fields of one attack small enough for the engine's arithmetic.
pub open spec fn attack_bounded(a: TargetAttack) -> bool {
    &&& -1_000_000 <= a.to_hit <= 1_000_000
    &&& match a.apply_condition {
        Some(cs) => match cs.save {
            Some(st) => -1_000_000 <= st.dc <= 1_000_000,
            None => true,
        },
        None => true,
    }
}

/// Numeric fields of a score block small enough for modifier arithmetic.
pub open spec fn scores_bounded(s: AbilityScores) -> bool {
    &&& -1_000_000 <= s.str_ <= 1_000_000
    &&& -1_000_000 <= s.dex <= 1_000_000
    &&& -1_000_000 <= s.con <= 1_000_000
    &&& -1_000_000 <= s.int_ <= 1_000_000
    &&& -1_000_000 <= s.wis <= 1_000_000
    &&& -1_000_000 <= s.cha <= 1_000_000
}

/// Numeric fields of a target small enough for the engine's arithmetic.
/// These are machine limits, far beyond any sensible stat block.
pub open spec fn target_bounded(t: Target) -> bool {
    &&& -1_000_000 <= t.ac <= 1_000_000
    &&& -1_000_000 <= t.hp <= 1_000_000
    &&& -1_000_000 <= t.dex_mod <= 1_000_000
    &&& match t.abilities {
        Some(s) => scores_bounded(s),
        None => true,
    }
    &&& forall|i: int| 0 <= i < t.attacks@.len() ==> attack_bounded(#[trigger] t.attacks@[i])
}

/// The modifier a target uses for an ability: from its full score block when
/// it has one, else its bare Dexterity modifier for Dexterity and 0 for the
/// rest.
pub open spec fn spec_target_ability_mod(t: Target, a: Ability) -> int {
    match t.abilities {
        Some(s) => crate::rules::ability_modifier(crate::actor::spec_score(s, a)),
        None => if a == Ability::Dex {
            t.dex_mod as int
        } else {
            0
        },
    }
}

impl Target {
    /// The target's Dexterity modifier.
    pub fn dexterity_mod(&self) -> (r: i32)
        ensures
            r == spec_target_ability_mod(*self, Ability::Dex),
    {
        match &self.abilities {
            Some(scores) => scores.mod_of(Ability::Dex),
            None => self.dex_mod,
        }
    }

    /// The target's modifier for an ability.
    pub fn ability_mod(&self, ability: Ability) -> (r: i32)
        ensures
            r == spec_target_ability_mod(*self, ability),
    {
        match &self.abilities {
            Some(scores) => scores.mod_of(ability),
            None => if matches!(ability, Ability::Dex) {
                self.dex_mod
            } else {
                0
            },
        }
    }

    /// The target's saving-throw modifiers, one per ability.
    pub fn save_modifiers(&self) -> (r: SaveModifiers)
        requires
            target_bounded(*self),
        ensures
            forall|a: Ability|
                crate::conditions::spec_save_modifier(r, a) == spec_target_ability_mod(*self, a),
            save_modifiers_bounded(r),
    {
        let r = SaveModifiers {
            str_: self.ability_mod(Ability::Str),
            dex: self.ability_mod(Ability::Dex),
            con: self.ability_mod(Ability::Con),
            int_: self.ability_mod(Ability::Int),
            wis: self.ability_mod(Ability::Wis),
            cha: self.ability_mod(Ability::Cha),
        };
        proof {
            assert forall|a: Ability|
                crate::conditions::spec_save_modifier(r, a) == spec_target_ability_mod(
                    *self,
                    a,
                ) by {
                match a {
                    Ability::Str => {},
                    Ability::Dex => {},
                    Ability::Con => {},
                    Ability::Int => {},
                    Ability::Wis => {},
                    Ability::Cha => {},
                }
            }
        }
        r
    }
}

/// The bounds within which every actor field must lie for the engine's
/// arithmetic; far beyond any sensible character sheet.
pub open spec fn actor_bounded(a: Actor) -> bool {
    &&& scores_bounded(a.abilities)
    &&& -1_000_000 <= a.proficiency_bonus <= 1_000_000
}

/// The baked-in first-level fighter the simulations run: STR 16, DEX 14,
/// CON 14, INT 10, WIS 12, CHA 8, proficiency +2, proficient in STR and CON
/// saves and in Athletics and Perception.
pub fn sample_fighter() -> (r: Actor)
    ensures
        r.abilities == (AbilityScores { str_: 16, dex: 14, con: 14, int_: 10, wis: 12, cha: 8 }),
        r.proficiency_bonus == 2,
        r.save_proficiencies@ == seq![Ability::Str, Ability::Con],
        r.skill_proficiencies@ == seq![crate::actor::Skill::Athletics,
            crate::actor::Skill::Perception],
        actor_bounded(r),
{
    let mut save: Vec<Ability> = Vec::new();
    save.push(Ability::Str);
    save.push(Ability::Con);
    let mut skills: Vec<crate::actor::Skill> = Vec::new();
    skills.push(crate::actor::Skill::Athletics);
    skills.push(crate::actor::Skill::Perception);
    let r = Actor {
        abilities: AbilityScores { str_: 16, dex: 14, con: 14, int_: 10, wis: 12, cha: 8 },
        proficiency_bonus: 2,
        save_proficiencies: save,
        skill_proficiencies: skills,
    };
    proof {
        assert(r.save_proficiencies@ =~= seq![Ability::Str, Ability::Con]);
        assert(r.skill_proficiencies@ =~= seq![crate::actor::Skill::Athletics,
            crate::actor::Skill::Perception]);
    }
    r
}

/// The actor's saving-throw modifiers, one per ability, as the condition
/// system consumes them.
pub fn actor_save_modifiers(actor: &Actor) -> (r: SaveModifiers)
    requires
        actor_bounded(*actor),
        forall|a: Ability| i32::MIN <= #[trigger] actor.spec_save_mod(a) <= i32::MAX,
    ensures
        forall|a: Ability|
            crate::conditions::spec_save_modifier(r, a) == actor.spec_save_mod(a),
        save_modifiers_bounded(r),
{
    let r = SaveModifiers {
        str_: actor.save_mod(Ability::Str),
        dex: actor.save_mod(Ability::Dex),
        con: actor.save_mod(Ability::Con),
        int_: actor.save_mod(Ability::Int),
        wis: actor.save_mod(Ability::Wis),
        cha: actor.save_mod(Ability::Cha),
    };
    proof {
        assert forall|a: Ability|
            crate::conditions::spec_save_modifier(r, a) == actor.spec_save_mod(a) by {
            match a {
                Ability::Str => {},
                Ability::Dex => {},
                Ability::Con => {},
                Ability::Int => {},
                Ability::Wis => {},
                Ability::Cha => {},
            }
        }
    }
    r
}

/// The condition kind a string names (any ASCII case): poisoned, prone or
/// restrained; None otherwise.
pub open spec fn spec_parse_condition_kind(b: Seq<u8>) -> Option<ConditionKind> {
    if eq_ignore_case(b, "poisoned".spec_bytes()) {
        Some(ConditionKind::Poisoned)
    } else if eq_ignore_case(b, "prone".spec_bytes()) {
        Some(ConditionKind::Prone)
    } else if eq_ignore_case(b, "restrained".spec_bytes()) {
        Some(ConditionKind::Restrained)
    } else {
        None
    }
}

/// Map a condition name to its kind, ignoring ASCII case.
pub fn parse_condition_kind(s: &str) -> (r: Option<ConditionKind>)
    ensures
        r == spec_parse_condition_kind(s.spec_bytes()),
{
    let b = s.as_bytes();
    if crate::text::bytes_eq_ignore_case(b, "poisoned".as_bytes()) {
        Some(ConditionKind::Poisoned)
    } else if crate::text::bytes_eq_ignore_case(b, "prone".as_bytes()) {
        Some(ConditionKind::Prone)
    } else if crate::text::bytes_eq_ignore_case(b, "restrained".as_bytes()) {
        Some(ConditionKind::Restrained)
    } else {
        None
    }
}

/// The active conditions a list of names yields: each recognized name
/// becomes a bare condition record; unknown names are skipped.
pub open spec fn parsed_condition_list(ss: Seq<String>) -> Seq<ActiveCondition>
    decreases ss.len(),
{
    if ss.len() == 0 {
        Seq::empty()
    } else {
        let rest = parsed_condition_list(ss.drop_first());
        match spec_parse_condition_kind(chars_bytes(ss[0]@)) {
            Some(k) => seq![plain_condition(k)] + rest,
            None => rest,
        }
    }
}

/// Parse a list of condition names into bare active conditions; unknown
/// names are skipped.
pub fn parse_condition_list(src: &Vec<String>) -> (r: Vec<ActiveCondition>)
    ensures
        r@ == parsed_condition_list(src@),
{
    let mut out: Vec<ActiveCondition> = Vec::new();
    proof {
        assert(src@.skip(0) =~= src@);
        assert(Seq::<ActiveCondition>::empty() + parsed_condition_list(src@)
            =~= parsed_condition_list(src@));
    }
    let mut i: usize = 0;
    while i < src.len()
        invariant
            i <= src@.len(),
            parsed_condition_list(src@) == out@ + parsed_condition_list(src@.skip(i as int)),
        decreases src@.len() - i,
    {
        let ghost rest = src@.skip(i as int);
        proof {
            assert(rest[0] == src@[i as int]);
            assert(rest.drop_first() =~= src@.skip(i as int + 1));
        }
        match parse_condition_kind(src[i].as_str()) {
            Some(k) => {
                out.push(crate::conditions::make_active_condition(k));
                proof {
                    assert(out@ =~= out@.drop_last() + seq![plain_condition(k)]);
                    assert((out@.drop_last() + seq![plain_condition(k)]) + parsed_condition_list(
                        src@.skip(i as int + 1),
                    ) =~= out@.drop_last() + (seq![plain_condition(k)] + parsed_condition_list(
                        src@.skip(i as int + 1),
                    )));
                }
            },
            None => {},
        }
        i = i + 1;
    }
    proof {
        assert(src@.skip(src@.len() as int).len() == 0);
        assert(parsed_condition_list(src@) =~= out@);
    }
    out
}

/// The damage types a list of names yields; unknown names are skipped.
pub open spec fn parsed_damage_types(ss: Seq<String>) -> Seq<DamageType>
    decreases ss.len(),
{
    if ss.len() == 0 {
        Seq::empty()
    } else {
        let rest = parsed_damage_types(ss.drop_first());
        match spec_parse_damage_type(chars_bytes(ss[0]@)) {
            Some(d) => seq![d] + rest,
            None => rest,
        }
    }
}

/// Parse a list of damage-type names; unknown names are skipped.
pub fn collect_damage_types(src: &Vec<String>) -> (r: Vec<DamageType>)
    ensures
        r@ == parsed_damage_types(src@),
{
    let mut out: Vec<DamageType> = Vec::new();
    proof {
        assert(src@.skip(0) =~= src@);
        assert(Seq::<DamageType>::empty() + parsed_damage_types(src@) =~= parsed_damage_types(
            src@,
        ));
    }
    let mut i: usize = 0;
    while i < src.len()
        invariant
            i <= src@.len(),
            parsed_damage_types(src@) == out@ + parsed_damage_types(src@.skip(i as int)),
        decreases src@.len() - i,
    {
        let ghost rest = src@.skip(i as int);
        proof {
            assert(rest[0] == src@[i as int]);
            assert(rest.drop_first() =~= src@.skip(i as int + 1));
        }
        match crate::rules::parse_damage_type(src[i].as_str()) {
            Some(d) => {
                out.push(d);
                proof {
                    assert(out@ =~= out@.drop_last() + seq![d]);
                    assert((out@.drop_last() + seq![d]) + parsed_damage_types(
                        src@.skip(i as int + 1),
                    ) =~= out@.drop_last() + (seq![d] + parsed_damage_types(
                        src@.skip(i as int + 1),
                    )));
                }
            },
            None => {},
        }
        i = i + 1;
    }
    proof {
        assert(src@.skip(src@.len() as int).len() == 0);
        assert(parsed_damage_types(src@) =~= out@);
    }
    out
}


/// One initiative entry: the total, the raw d20 roll, the participant kind
/// (0 for the actor, 1 for an enemy) and the original index.
#[derive(Debug, Clone, Copy, PartialEq, Eq, Structural)]
pub struct InitEntry {
    pub total: i32,
    pub roll: i32,
    pub kind: u8,
    pub index: usize,
}

/// Turn-order precedence: higher total first, ties by higher raw roll, then
/// the actor before enemies, then lower original index. Reflexive and total,
/// so ties are broken deterministically, never re-rolled.
pub open spec fn init_precedes(a: InitEntry, b: InitEntry) -> bool {
    ||| a.total > b.total
    ||| (a.total == b.total && a.roll > b.roll)
    ||| (a.total == b.total && a.roll == b.roll && a.kind < b.kind)
    ||| (a.total == b.total && a.roll == b.roll && a.kind == b.kind && a.index <= b.index)
}

/// Precedence is total: one of the two orders always holds.
pub proof fn lemma_init_precedes_total(a: InitEntry, b: InitEntry)
    ensures
        init_precedes(a, b) || init_precedes(b, a),
{
}

/// Precedence is transitive.
pub proof fn lemma_init_precedes_trans(a: InitEntry, b: InitEntry, c: InitEntry)
    requires
        init_precedes(a, b),
        init_precedes(b, c),
    ensures
        init_precedes(a, c),
{
}


/// The index of the entry that takes its turn first among `s[k..]`, with
/// `m` the best index seen so far: the first minimal entry under
/// `init_precedes`.
pub open spec fn min_index_from(s: Seq<InitEntry>, k: int, m: int) -> int
    decreases s.len() - k,
{
    if k >= s.len() {
        m
    } else {
        min_index_from(
            s,
            k + 1,
            if !init_precedes(s[m], s[k]) {
                k
            } else {
                m
            },
        )
    }
}

/// Initiative order as a function of the rolled entries: repeatedly take
/// the first minimal entry. This is what the sorted order must equal.
pub open spec fn spec_sort_initiative(s: Seq<InitEntry>) -> Seq<InitEntry>
    decreases s.len()
        via spec_sort_initiative_decreases
{
    if s.len() == 0 {
        Seq::empty()
    } else {
        let m = min_index_from(s, 1, 0);
        seq![s[m]] + spec_sort_initiative(s.remove(m))
    }
}

#[via_fn]
proof fn spec_sort_initiative_decreases(s: Seq<InitEntry>) {
    if s.len() > 0 {
        lemma_min_index_from_bounds(s, 1, 0);
    }
}

/// The accumulator of `min_index_from` stays within bounds.
pub proof fn lemma_min_index_from_bounds(s: Seq<InitEntry>, k: int, m: int)
    requires
        0 <= m < s.len(),
        0 <= k <= s.len(),
    ensures
        0 <= min_index_from(s, k, m) < s.len(),
    decreases s.len() - k,
{
    if k < s.len() {
        lemma_min_index_from_bounds(
            s,
            k + 1,
            if !init_precedes(s[m], s[k]) {
                k
            } else {
                m
            },
        );
    }
}

/// Whether `a` takes its turn no later than `b`.
fn init_precedes_exec(a: &InitEntry, b: &InitEntry) -> (r: bool)
    ensures
        r == init_precedes(*a, *b),
{
    if a.total != b.total {
        a.total > b.total
    } else if a.roll != b.roll {
        a.roll > b.roll
    } else if a.kind != b.kind {
        a.kind < b.kind
    } else {
        a.index <= b.index
    }
}

/// Sort initiative entries into turn order: a permutation of the input,
/// ordered by `init_precedes`.
fn sort_initiative(entries: Vec<InitEntry>) -> (r: Vec<InitEntry>)
    ensures
        r@ == spec_sort_initiative(entries@),
        r@.to_multiset() == entries@.to_multiset(),
        r@.len() == entries@.len(),
        forall|i: int, j: int| 0 <= i < j < r@.len() ==> init_precedes(#[trigger] r@[i], #[trigger] r@[j]),
{
    let ghost total_ms = entries@.to_multiset();
    let mut rem = entries;
    let mut out: Vec<InitEntry> = Vec::new();
    proof {
        assert(out@.to_multiset().add(rem@.to_multiset()) =~= total_ms) by {
            broadcast use vstd::seq_lib::group_to_multiset_ensures;
            assert(out@.to_multiset().len() == 0);
            assert_multisets_equal!(out@.to_multiset().add(rem@.to_multiset()), total_ms);
        };
    }
    proof {
        assert(out@ + spec_sort_initiative(rem@) =~= spec_sort_initiative(entries@));
    }
    while rem.len() > 0
        invariant
            out@.len() + rem@.len() == entries@.len(),
            out@ + spec_sort_initiative(rem@) == spec_sort_initiative(entries@),
            out@.to_multiset().add(rem@.to_multiset()) == total_ms,
            total_ms == entries@.to_multiset(),
            forall|i: int, j: int|
                0 <= i < j < out@.len() ==> init_precedes(#[trigger] out@[i], #[trigger] out@[j]),
            forall|i: int, j: int|
                0 <= i < out@.len() && 0 <= j < rem@.len() ==> init_precedes(
                    #[trigger] out@[i],
                    #[trigger] rem@[j],
                ),
        decreases rem@.len(),
    {
        let mut m: usize = 0;
        let mut k: usize = 1;
        while k < rem.len()
            invariant
                m < k <= rem@.len(),
                rem@.len() > 0,
                forall|t: int| 0 <= t < k ==> init_precedes(rem@[m as int], #[trigger] rem@[t]),
                min_index_from(rem@, k as int, m as int) == min_index_from(rem@, 1, 0),
            decreases rem@.len() - k,
        {
            if !init_precedes_exec(&rem[m], &rem[k]) {
                proof {
                    lemma_init_precedes_total(rem@[m as int], rem@[k as int]);
                    assert forall|t: int| 0 <= t < k + 1 implies init_precedes(
                        rem@[k as int],
                        #[trigger] rem@[t],
                    ) by {
                        if t < k {
                            lemma_init_precedes_trans(rem@[k as int], rem@[m as int], rem@[t]);
                        }
                    }
                }
                m = k;
            }
            k = k + 1;
        }
        let ghost old_out = out@;
        let ghost old_rem = rem@;
        proof {
            assert(min_index_from(old_rem, k as int, m as int) == m as int);
            assert(m as int == min_index_from(old_rem, 1, 0));
            assert(spec_sort_initiative(old_rem) == seq![old_rem[m as int]] + spec_sort_initiative(
                old_rem.remove(m as int),
            ));
        }
        let x = rem.remove(m);
        out.push(x);
        proof {
            assert(out@ + spec_sort_initiative(rem@) =~= old_out + spec_sort_initiative(old_rem));
            broadcast use vstd::seq_lib::group_to_multiset_ensures;
            assert(old_rem.remove(m as int).to_multiset() =~= old_rem.to_multiset().remove(x));
            assert(out@.to_multiset() =~= old_out.to_multiset().insert(x));
            assert(old_rem.to_multiset().count(x) > 0) by {
                assert(old_rem.contains(x)) by {
                    assert(old_rem[m as int] == x);
                };
            };
            assert_multisets_equal!(
                out@.to_multiset().add(rem@.to_multiset()),
                old_out.to_multiset().add(old_rem.to_multiset())
            );
            assert forall|i: int, j: int| 0 <= i < j < out@.len() implies init_precedes(
                #[trigger] out@[i],
                #[trigger] out@[j],
            ) by {
                if j < out@.len() - 1 {
                    assert(out@[i] == old_out[i] && out@[j] == old_out[j]);
                } else {
                    assert(out@[j] == x);
                    assert(out@[i] == old_out[i]);
                    assert(init_precedes(old_out[i], old_rem[m as int]));
                }
            }
            assert forall|i: int, j: int|
                0 <= i < out@.len() && 0 <= j < rem@.len() implies init_precedes(
                #[trigger] out@[i],
                #[trigger] rem@[j],
            ) by {
                let jj = if j < m { j } else { j + 1 };
                assert(rem@[j] == old_rem[jj]);
                if i < out@.len() - 1 {
                    assert(out@[i] == old_out[i]);
                    assert(init_precedes(old_out[i], old_rem[jj]));
                } else {
                    assert(out@[i] == x);
                    assert(init_precedes(old_rem[m as int], old_rem[jj]));
                }
            }
        }
    }
    proof {
        assert(out@ =~= out@ + spec_sort_initiative(rem@));
        broadcast use vstd::seq_lib::group_to_multiset_ensures;
        assert(rem@.to_multiset().len() == 0);
        assert_multisets_equal!(out@.to_multiset(), total_ms);
        assert(out@.to_multiset().len() == total_ms.len());
        assert(entries@.to_multiset().len() == entries@.len());
    }
    out
}

/// How the actor picks its target among living enemies.
#[derive(Debug, Clone, Copy, PartialEq, Eq, Structural)]
pub enum FocusStrategy {
    /// The living enemy with the lowest original index.
    First,
    /// The living enemy with the lowest current HP, ties by original index.
    Lowest,
    /// A uniform choice among living enemies, drawn from the dice engine so
    /// the whole simulation stays reproducible from one seed.
    Random,
}

/// The focus strategy a string names (any ASCII case); anything unknown
/// falls back to First.
pub open spec fn spec_parse_focus(b: Seq<u8>) -> FocusStrategy {
    if eq_ignore_case(b, "lowest".spec_bytes()) {
        FocusStrategy::Lowest
    } else if eq_ignore_case(b, "random".spec_bytes()) {
        FocusStrategy::Random
    } else {
        FocusStrategy::First
    }
}

/// Parse a focus-strategy name; anything unrecognized means First.
pub fn parse_focus(s: &str) -> (r: FocusStrategy)
    ensures
        r == spec_parse_focus(s.spec_bytes()),
{
    let b = s.as_bytes();
    if crate::text::bytes_eq_ignore_case(b, "lowest".as_bytes()) {
        FocusStrategy::Lowest
    } else if crate::text::bytes_eq_ignore_case(b, "random".as_bytes()) {
        FocusStrategy::Random
    } else {
        FocusStrategy::First
    }
}

/// The mutable state of one enemy during an encounter, parallel to its
/// definition: current HP, parsed damage-type sets and active conditions.
#[derive(Debug)]
pub struct EnemyState {
    pub hp: i32,
    pub resist: Vec<DamageType>,
    pub vuln: Vec<DamageType>,
    pub immune: Vec<DamageType>,
    pub conditions: Vec<ActiveCondition>,
}

/// Whether some enemy is still standing.
pub open spec fn any_alive(states: Seq<EnemyState>) -> bool {
    exists|i: int| 0 <= i < states.len() && states[i].hp > 0
}



/// The original indices of the living enemies, in ascending order.
pub open spec fn alive_indices(states: Seq<EnemyState>) -> Seq<int>
    decreases states.len(),
{
    if states.len() == 0 {
        Seq::empty()
    } else {
        let rest = alive_indices(states.drop_last());
        if states.last().hp > 0 {
            rest.push(states.len() - 1)
        } else {
            rest
        }
    }
}

/// The die a Random pick rolls: one side per living enemy, capped at a byte.
pub open spec fn random_sides(states: Seq<EnemyState>) -> u8 {
    let n = alive_indices(states).len();
    if n < 255 {
        n as u8
    } else {
        255
    }
}

/// The index a Random pick selects for a given roll: the roll chooses a
/// position among the living enemies, clamped to the last one.
pub open spec fn spec_random_pick(states: Seq<EnemyState>, roll: u8) -> int {
    let alive = alive_indices(states);
    let j = if roll - 1 < alive.len() - 1 {
        roll - 1
    } else {
        alive.len() - 1
    };
    alive[j]
}


/// The index of the first living enemy at or after `k`, or -1 when none.
pub open spec fn spec_first_alive(states: Seq<EnemyState>, k: int) -> int
    decreases states.len() - k,
{
    if k >= states.len() {
        -1
    } else if states[k].hp > 0 {
        k
    } else {
        spec_first_alive(states, k + 1)
    }
}

/// The index of the living enemy with the least HP among `states[k..]`,
/// given the best index seen so far (-1 for none); ties keep the earlier
/// index.
pub open spec fn spec_lowest_from(states: Seq<EnemyState>, k: int, best: int) -> int
    decreases states.len() - k,
{
    if k >= states.len() {
        best
    } else {
        spec_lowest_from(
            states,
            k + 1,
            if states[k].hp > 0 && (best < 0 || states[k].hp < states[best].hp) {
                k
            } else {
                best
            },
        )
    }
}

/// The target a focus strategy picks, as a function of the enemies' state
/// and the dice stream: the first living enemy, the living enemy of least
/// HP (ties by index), or the uniform pick drawn from the stream.
pub open spec fn spec_select_target(
    focus: FocusStrategy,
    states: Seq<EnemyState>,
    m: DiceModel,
) -> Option<int> {
    match focus {
        FocusStrategy::First => {
            let i = spec_first_alive(states, 0);
            if i < 0 {
                Option::None
            } else {
                Option::Some(i)
            }
        },
        FocusStrategy::Lowest => {
            let i = spec_lowest_from(states, 0, -1);
            if i < 0 {
                Option::None
            } else {
                Option::Some(i)
            }
        },
        FocusStrategy::Random => if any_alive(states) {
            Option::Some(
                spec_random_pick(states, model_next(m, 1, random_sides(states))),
            )
        } else {
            Option::None
        },
    }
}

/// The dice stream after a selection: only a Random pick with a living
/// enemy draws from it.
pub open spec fn spec_select_dice(
    focus: FocusStrategy,
    states: Seq<EnemyState>,
    m: DiceModel,
) -> DiceModel {
    if focus is Random && any_alive(states) {
        crate::dice::model_step(m, 1, random_sides(states))
    } else {
        m
    }
}

/// What a correct selection looks like: a living enemy, the first living one
/// under First, and a living enemy of minimal HP (ties by index) under
/// Lowest.
pub open spec fn good_selection(
    strategy: FocusStrategy,
    states: Seq<EnemyState>,
    r: Option<usize>,
) -> bool {
    match r {
        Some(i) => {
            &&& i < states.len()
            &&& states[i as int].hp > 0
            &&& (strategy is First ==> (forall|j: int|
                0 <= j < i ==> states[j].hp <= 0))
            &&& (strategy is Lowest ==> (forall|j: int|
                0 <= j < states.len() && states[j].hp > 0 ==> (states[i as int].hp < states[j].hp
                    || (states[i as int].hp == states[j].hp && i <= j))))
        },
        None => true,
    }
}

/// Pick the actor's target among living enemies by the focus strategy:
/// First takes the lowest original index; Lowest takes the least current HP
/// (ties by index, re-evaluated at every call); Random draws uniformly from
/// the dice engine. None exactly when no enemy lives. Only a Random pick
/// with a living enemy advances the dice stream.
#[verifier::loop_isolation(false)]
pub fn select_enemy_target(strategy: FocusStrategy, states: &Vec<EnemyState>, dice: &mut Dice) -> (r:
    Option<usize>)
    ensures
        (r is Some) == any_alive(states@),
        good_selection(strategy, states@, r),
        (match spec_select_target(strategy, states@, old(dice)@) {
            Option::Some(i) => r matches Some(x) && x as int == i,
            Option::None => r is None,
        }),
        final(dice)@ == spec_select_dice(strategy, states@, old(dice)@),
        !(strategy is Random && any_alive(states@)) ==> final(dice)@ == old(
            dice,
        )@,
        (strategy is Random && any_alive(states@)) ==> {
            &&& final(dice)@ == crate::dice::model_step(old(dice)@, 1, random_sides(states@))
            &&& (r matches Some(x) && x as int == spec_random_pick(
                states@,
                crate::dice::model_next(old(dice)@, 1, random_sides(states@)),
            ))
        },
{
    match strategy {
        FocusStrategy::First => {
            let mut i: usize = 0;
            while i < states.len()
                invariant
                    i <= states@.len(),
                    forall|j: int| 0 <= j < i ==> states@[j].hp <= 0,
                    spec_first_alive(states@, 0) == spec_first_alive(states@, i as int),
                decreases states@.len() - i,
            {
                if states[i].hp > 0 {
                    proof {
                        assert(states@[i as int].hp > 0);
                        assert(any_alive(states@));
                        assert(spec_first_alive(states@, i as int) == i as int);
                    }
                    return Some(i);
                }
                i = i + 1;
            }
            proof {
                assert(spec_first_alive(states@, states@.len() as int) == -1);
            }
            None
        },
        FocusStrategy::Lowest => {
            let mut best: Option<usize> = None;
            let mut i: usize = 0;
            while i < states.len()
                invariant
                    i <= states@.len(),
                    (best is Some) == (exists|j: int| 0 <= j < i && states@[j].hp > 0),
                    best matches Some(b) ==> b < i && states@[b as int].hp > 0 && forall|j: int|
                        0 <= j < i && states@[j].hp > 0 ==> (states@[b as int].hp < states@[j].hp
                            || (states@[b as int].hp == states@[j].hp && b <= j)),
                    spec_lowest_from(states@, 0, -1) == spec_lowest_from(
                        states@,
                        i as int,
                        match best {
                            Some(b) => b as int,
                            None => -1,
                        },
                    ),
                decreases states@.len() - i,
            {
                if states[i].hp > 0 {
                    match best {
                        Some(b) => {
                            if states[i].hp < states[b].hp {
                                best = Some(i);
                            }
                        },
                        None => {
                            best = Some(i);
                        },
                    }
                }
                i = i + 1;
            }
            proof {
                assert(spec_lowest_from(states@, states@.len() as int, match best {
                    Some(b) => b as int,
                    None => -1,
                }) == (match best {
                    Some(b) => b as int,
                    None => -1,
                }));
                if best is Some {
                    let b = best.unwrap() as int;
                    assert(states@[b].hp > 0);
                    assert(any_alive(states@));
                }
            }
            best
        },
        FocusStrategy::Random => {
            let mut alive: Vec<usize> = Vec::new();
            proof {
                assert(states@.take(0).len() == 0);
            }
            let mut i: usize = 0;
            while i < states.len()
                invariant
                    i <= states@.len(),
                    forall|k: int|
                        0 <= k < alive@.len() ==> #[trigger] alive@[k] < i && states@[alive@[k] as int].hp
                            > 0,
                    alive@.len() > 0 <==> exists|j: int| 0 <= j < i && states@[j].hp > 0,
                    alive@.len() == alive_indices(states@.take(i as int)).len(),
                    forall|k: int|
                        0 <= k < alive@.len() ==> #[trigger] alive@[k] as int == alive_indices(
                            states@.take(i as int),
                        )[k],
                decreases states@.len() - i,
            {
                proof {
                    let pre = states@.take(i as int + 1);
                    assert(pre.drop_last() =~= states@.take(i as int));
                    assert(pre.last() == states@[i as int]);
                }
                if states[i].hp > 0 {
                    alive.push(i);
                }
                i = i + 1;
            }
            proof {
                assert(states@.take(states@.len() as int) =~= states@);
            }
            if alive.len() == 0 {
                return None;
            }
            proof {
                assert(states@[alive@[0] as int].hp > 0);
                assert(any_alive(states@));
            }
            let sides: u8 = if alive.len() < 255 {
                alive.len() as u8
            } else {
                255
            };
            let roll = dice.die(sides) as usize;
            let choice = if roll - 1 < alive.len() - 1 {
                roll - 1
            } else {
                alive.len() - 1
            };
            Some(alive[choice])
        },
    }
}


/// The index of the first weapon whose name matches, or -1 when none does.
pub open spec fn first_weapon_index(ws: Seq<Weapon>, name: Seq<u8>) -> int
    decreases ws.len(),
{
    if ws.len() == 0 {
        -1
    } else if eq_ignore_case(chars_bytes(ws[0].name@), name) {
        0
    } else {
        let r = first_weapon_index(ws.drop_first(), name);
        if r < 0 {
            -1
        } else {
            r + 1
        }
    }
}

/// `first_weapon_index` is exactly the least matching index, and -1 exactly
/// when no weapon matches.
pub proof fn lemma_first_weapon_index(ws: Seq<Weapon>, name: Seq<u8>)
    ensures
        first_weapon_index(ws, name) < 0 ==> forall|j: int|
            0 <= j < ws.len() ==> !weapon_name_matches(ws, j, name),
        first_weapon_index(ws, name) >= 0 ==> {
            let i = first_weapon_index(ws, name);
            &&& i < ws.len()
            &&& weapon_name_matches(ws, i, name)
            &&& forall|j: int| 0 <= j < i ==> !weapon_name_matches(ws, j, name)
        },
    decreases ws.len(),
{
    if ws.len() > 0 && !eq_ignore_case(chars_bytes(ws[0].name@), name) {
        lemma_first_weapon_index(ws.drop_first(), name);
        let rest = ws.drop_first();
        assert(forall|j: int|
            0 <= j < rest.len() ==> #[trigger] weapon_name_matches(rest, j, name)
                == weapon_name_matches(ws, j + 1, name)) by {
            assert(forall|j: int| 0 <= j < rest.len() ==> rest[j] == ws[j + 1]);
        };
        let r = first_weapon_index(rest, name);
        if r >= 0 {
            assert(weapon_name_matches(ws, r + 1, name));
            assert forall|j: int| 0 <= j < r + 1 implies !weapon_name_matches(ws, j, name) by {
                if j > 0 {
                    assert(!weapon_name_matches(rest, j - 1, name));
                }
            }
        } else {
            assert forall|j: int| 0 <= j < ws.len() implies !weapon_name_matches(
                ws,
                j,
                name,
            ) by {
                if j > 0 {
                    assert(!weapon_name_matches(rest, j - 1, name));
                }
            }
        }
    }
}


/// A match with no earlier match sits exactly at the first-match index.
proof fn lemma_found_weapon_is_first(ws: Seq<Weapon>, name: Seq<u8>, wi: int)
    requires
        0 <= wi < ws.len(),
        weapon_name_matches(ws, wi, name),
        forall|j: int| 0 <= j < wi ==> !weapon_name_matches(ws, j, name),
    ensures
        first_weapon_index(ws, name) == wi,
{
    lemma_first_weapon_index(ws, name);
    let fw = first_weapon_index(ws, name);
    if fw < 0 {
        assert(!weapon_name_matches(ws, wi, name));
    } else if fw < wi {
        assert(weapon_name_matches(ws, fw, name));
        assert(!weapon_name_matches(ws, fw, name));
    } else if fw > wi {
        assert(weapon_name_matches(ws, wi, name));
        assert(!weapon_name_matches(ws, wi, name));
    }
}

/// When nothing matches, the first-match index is negative.
proof fn lemma_no_weapon_match(ws: Seq<Weapon>, name: Seq<u8>)
    requires
        forall|j: int| 0 <= j < ws.len() ==> !weapon_name_matches(ws, j, name),
    ensures
        first_weapon_index(ws, name) < 0,
{
    lemma_first_weapon_index(ws, name);
    let fw = first_weapon_index(ws, name);
    if fw >= 0 {
        assert(weapon_name_matches(ws, fw, name));
        assert(!weapon_name_matches(ws, fw, name));
    }
}

/// Configuration of a duel: the chosen weapon, starting conditions for both
/// sides, the seed, an optional HP override, the actor-side advantage mode,
/// and the proficiency, two-handed-grip and reactive-potion switches.
#[derive(Debug, Clone)]
pub struct DuelConfig {
    pub weapon: String,
    pub actor_conditions: Vec<String>,
    pub enemy_conditions: Vec<String>,
    pub seed: u64,
    pub actor_hp: Option<i32>,
    pub advantage: AdMode,
    pub proficient: bool,
    pub two_handed: bool,
    pub auto_potion: bool,
}

/// The HP override within machine bounds.
pub open spec fn duel_config_bounded(cfg: DuelConfig) -> bool {
    match cfg.actor_hp {
        Some(x) => -1_000_000 <= x <= 1_000_000,
        None => true,
    }
}

/// The actor's starting hit points: the override, or the default.
pub open spec fn actor_start_hp(cfg: DuelConfig) -> int {
    match cfg.actor_hp {
        Some(x) => x as int,
        None => DEFAULT_ACTOR_HP as int,
    }
}

/// Terminal snapshot of a duel: winner, rounds elapsed, both ending HP
/// values, and the full ordered event log.
#[derive(Debug, Clone)]
pub struct DuelResult {
    pub winner: Winner,
    pub rounds: u32,
    pub actor_hp_end: i32,
    pub enemy_hp_end: i32,
    pub log: Vec<Event>,
}

/// The damage dice the actor swings in a duel: the versatile dice when the
/// two-handed grip is chosen and the weapon offers them, else the base dice.
pub open spec fn spec_duel_weapon_dice(w: Weapon, two_handed: bool) -> DamageDice {
    if two_handed && w.versatile is Some {
        w.versatile.unwrap()
    } else {
        w.dice
    }
}

/// The configuration error a duel reports, checked before any dice are
/// rolled: a target without attacks, an unknown weapon name, or dice that
/// cannot be rolled; None when the duel can run.
pub open spec fn spec_duel_error(cfg: DuelConfig, target: Target, ws: Seq<Weapon>) -> Option<
    SimError,
> {
    let fw = first_weapon_index(ws, chars_bytes(cfg.weapon@));
    if target.attacks@.len() == 0 {
        Some(SimError::TargetHasNoAttacks)
    } else if fw < 0 {
        Some(SimError::WeaponNotFound)
    } else if spec_duel_weapon_dice(ws[fw], cfg.two_handed).sides < 1 || target.attacks@[0].dice.sides
        < 1 {
        Some(SimError::InvalidDice)
    } else {
        None
    }
}

/// What every successful duel result satisfies: the round cap held; the
/// winner classification agrees with the ending HP values (the actor wins
/// exactly when the enemy fell and it stands, and so on); both ending HP
/// values stay within their starting bounds; and the log closes with the
/// matching end record.
pub open spec fn duel_result_consistent(out: DuelResult, target: Target, hp0: int) -> bool {
    &&& out.rounds <= MAX_ROUNDS
    &&& (out.winner is Actor <==> (out.enemy_hp_end <= 0 && out.actor_hp_end > 0))
    &&& (out.winner is Enemy <==> (out.actor_hp_end <= 0 && out.enemy_hp_end > 0))
    &&& (out.winner is Draw <==> ((out.enemy_hp_end <= 0 && out.actor_hp_end <= 0) || (
    out.enemy_hp_end > 0 && out.actor_hp_end > 0)))
    &&& (if hp0 <= 0 {
        hp0
    } else {
        0
    }) <= out.actor_hp_end <= (if hp0 >= 1 {
        hp0
    } else {
        1
    })
    &&& if target.hp >= 0 {
        0 <= out.enemy_hp_end <= target.hp
    } else {
        out.enemy_hp_end == target.hp
    }
    &&& (out.rounds == 0 ==> out.actor_hp_end == hp0 && out.enemy_hp_end == target.hp)
    &&& out.log@.len() >= 2
    &&& (out.log@[0] matches Event::DuelStart { actor_ac, actor_hp, enemy_name, enemy_ac, enemy_hp }
        && actor_ac == DEFAULT_ACTOR_AC && actor_hp == hp0 && enemy_name@ == target.name@
        && enemy_ac == target.ac && enemy_hp == target.hp)
    &&& (out.log@.last() matches Event::DuelEnd { rounds, actor_hp, enemy_hp } && rounds
        == out.rounds && actor_hp == out.actor_hp_end && enemy_hp == out.enemy_hp_end)
}


/// Everything about a duel that is fixed before the first round: the actor's
/// numbers derived from the chosen weapon and configuration, the target's
/// numbers, and both sides' saving-throw modifiers.
pub struct DuelParams {
    pub base_vantage: Vantage,
    pub actor_style: AttackStyle,
    pub attack_bonus: int,
    pub damage_mod: int,
    pub weapon_dice: DamageDice,
    pub resisted: bool,
    pub vulnerable: bool,
    pub immune: bool,
    pub enemy_eff_ac: int,
    pub t_to_hit: int,
    pub t_dice: DamageDice,
    pub t_style: AttackStyle,
    pub t_cond: Option<ConditionSpec>,
    pub actor_mods: SaveModifiers,
    pub enemy_mods: SaveModifiers,
}

/// The mutable state of a duel between turns.
pub struct DuelState {
    pub rounds: int,
    pub actor_turn: bool,
    pub potion_left: bool,
    pub health: Health,
    pub enemy_hp: int,
    pub actor_conds: Seq<ActiveCondition>,
    pub enemy_conds: Seq<ActiveCondition>,
    pub dice: DiceModel,
}

/// The damage type the actor's weapon deals: its own, else the preset for
/// its name, else slashing.
pub open spec fn spec_weapon_damage_type(w: Weapon) -> DamageType {
    if w.damage_type is Some {
        w.damage_type.unwrap()
    } else if spec_preset_damage_type(chars_bytes(w.name@)) is Some {
        spec_preset_damage_type(chars_bytes(w.name@)).unwrap()
    } else {
        DamageType::Slashing
    }
}

/// The fixed parameters of a duel, derived from the configuration, the
/// target, and the chosen weapon. The actor is the baked-in fighter, so its
/// modifiers are concrete: +3 Strength, +2 Dexterity, save modifiers
/// (5, 2, 4, 0, 1, -1).
#[verifier::opaque]
pub open spec fn spec_duel_params(cfg: DuelConfig, target: Target, ws: Seq<Weapon>) -> DuelParams {
    let w = ws[first_weapon_index(ws, chars_bytes(cfg.weapon@))];
    let amod: int = if w.ranged || w.finesse {
        2
    } else {
        3
    };
    let dtype = spec_weapon_damage_type(w);
    DuelParams {
        base_vantage: spec_admode_vantage(cfg.advantage),
        actor_style: if w.ranged {
            AttackStyle::Ranged
        } else {
            AttackStyle::Melee
        },
        attack_bonus: amod + if cfg.proficient {
            2int
        } else {
            0int
        },
        damage_mod: amod,
        weapon_dice: spec_duel_weapon_dice(w, cfg.two_handed),
        resisted: parsed_damage_types(target.resistances@).contains(dtype),
        vulnerable: parsed_damage_types(target.vulnerabilities@).contains(dtype),
        immune: parsed_damage_types(target.immunities@).contains(dtype),
        enemy_eff_ac: target.ac + cover_bonus(target.cover),
        t_to_hit: target.attacks@[0].to_hit as int,
        t_dice: target.attacks@[0].dice,
        t_style: if target.attacks@[0].ranged {
            AttackStyle::Ranged
        } else {
            AttackStyle::Melee
        },
        t_cond: target.attacks@[0].apply_condition,
        actor_mods: SaveModifiers { str_: 5, dex: 2, con: 4, int_: 0, wis: 1, cha: -1i32 },
        enemy_mods: SaveModifiers {
            str_: spec_target_ability_mod(target, Ability::Str) as i32,
            dex: spec_target_ability_mod(target, Ability::Dex) as i32,
            con: spec_target_ability_mod(target, Ability::Con) as i32,
            int_: spec_target_ability_mod(target, Ability::Int) as i32,
            wis: spec_target_ability_mod(target, Ability::Wis) as i32,
            cha: spec_target_ability_mod(target, Ability::Cha) as i32,
        },
    }
}

/// The enemy's starting conditions: the target's own, then the extra ones
/// the configuration names.
pub open spec fn initial_enemy_conds(cfg: DuelConfig, target: Target) -> Seq<ActiveCondition> {
    Seq::new(target.conditions@.len(), |k: int| plain_condition(target.conditions@[k]))
        + parsed_condition_list(cfg.enemy_conditions@)
}

/// The actor's initiative total: the first d20 of the stream plus its +2
/// Dexterity modifier.
pub open spec fn spec_actor_init_total(seed: u64) -> int {
    model_next(DiceModel::Seeded { seed, taken: Seq::empty() }, 1, 20) + 2
}

/// The enemy's initiative total: the second d20 of the stream plus its
/// Dexterity modifier.
pub open spec fn spec_enemy_init_total(seed: u64, target: Target) -> int {
    model_next(model_step(DiceModel::Seeded { seed, taken: Seq::empty() }, 1, 20), 1, 20)
        + spec_target_ability_mod(target, Ability::Dex)
}

/// The duel's state after initiative: both sides fresh, the actor first
/// exactly when its initiative total reaches the enemy's, the dice stream
/// two draws in.
#[verifier::opaque]
pub open spec fn spec_duel_init(cfg: DuelConfig, seed: u64, target: Target) -> DuelState {
    let m0 = DiceModel::Seeded { seed, taken: Seq::empty() };
    DuelState {
        rounds: 0,
        actor_turn: spec_actor_init_total(seed) >= spec_enemy_init_total(seed, target),
        potion_left: cfg.auto_potion,
        health: Health {
            hp: actor_start_hp(cfg) as i32,
            max_hp: actor_start_hp(cfg) as i32,
            state: LifeState::Conscious,
            death: crate::life::DeathSaves { successes: 0, failures: 0 },
        },
        enemy_hp: target.hp as int,
        actor_conds: parsed_condition_list(cfg.actor_conditions@),
        enemy_conds: initial_enemy_conds(cfg, target),
        dice: model_step(model_step(m0, 1, 20), 1, 20),
    }
}

/// One actor turn: a death save if one is due, the start-of-turn boundary,
/// one attack when conscious (vantage from conditions, kept roll, damage
/// with type adjustment, the enemy's HP clamped at zero), and the
/// end-of-turn boundary.
#[verifier::opaque]
pub open spec fn spec_actor_turn(st: DuelState, p: DuelParams) -> DuelState {
    let h1 = if qualifies_for_death_save(st.health) {
        death_save_transition(st.health, crate::dice::d20_first(st.dice)).0
    } else {
        st.health
    };
    let d1 = if qualifies_for_death_save(st.health) {
        model_step(st.dice, 1, 20)
    } else {
        st.dice
    };
    let ac1 = boundary_conditions(st.actor_conds, TurnBoundary::StartOfTurn, p.actor_mods, d1);
    let d2 = boundary_dice(st.actor_conds, TurnBoundary::StartOfTurn, p.actor_mods, d1);
    let mode = spec_vantage_admode(
        combine_vantage(
            p.base_vantage,
            spec_vantage_from_conditions(ac1, st.enemy_conds, p.actor_style),
        ),
    );
    let kept = d20_kept(d2, mode) as int;
    let d_atk = d20_step(d2, mode);
    let hit = kept == 20 || (kept != 1 && kept + p.attack_bonus >= p.enemy_eff_ac);
    let n = rolled_count(p.weapon_dice.count, kept == 20);
    let raw = dice_sum(d_atk, n, p.weapon_dice.sides) + p.damage_mod;
    let ehp1 = if h1.state is Conscious && hit {
        hp_after_damage(st.enemy_hp, adjusted_damage(raw, p.resisted, p.vulnerable, p.immune))
    } else {
        st.enemy_hp
    };
    let d3 = if h1.state is Conscious {
        if hit {
            dice_step_n(d_atk, n, p.weapon_dice.sides)
        } else {
            d_atk
        }
    } else {
        d2
    };
    let ac2 = boundary_conditions(ac1, TurnBoundary::EndOfTurn, p.actor_mods, d3);
    let d4 = boundary_dice(ac1, TurnBoundary::EndOfTurn, p.actor_mods, d3);
    DuelState { health: h1, enemy_hp: ehp1, actor_conds: ac2, dice: d4, ..st }
}

/// One enemy turn: the start-of-turn boundary on its conditions, one attack
/// at the actor when it still stands (damage through the life machine, the
/// one-shot potion, an on-hit condition with its resisting save), and the
/// end-of-turn boundary. Written for a living actor; the duel never steps a
/// dead one.
#[verifier::opaque]
pub open spec fn spec_enemy_turn(st: DuelState, p: DuelParams) -> DuelState {
    let ec1 = boundary_conditions(st.enemy_conds, TurnBoundary::StartOfTurn, p.enemy_mods, st.dice);
    let d1 = boundary_dice(st.enemy_conds, TurnBoundary::StartOfTurn, p.enemy_mods, st.dice);
    let mode = spec_vantage_admode(
        combine_vantage(
            Vantage::Normal,
            spec_vantage_from_conditions(ec1, st.actor_conds, p.t_style),
        ),
    );
    let kept = d20_kept(d1, mode) as int;
    let d_atk = d20_step(d1, mode);
    let hit = kept == 20 || (kept != 1 && kept + p.t_to_hit >= DEFAULT_ACTOR_AC);
    let n = rolled_count(p.t_dice.count, kept == 20);
    let dmg = dice_sum(d_atk, n, p.t_dice.sides);
    let d_dmg = dice_step_n(d_atk, n, p.t_dice.sides);
    let hp_a = hp_after_damage(st.health.hp as int, dmg);
    let dropped = st.health.hp > 0 && hp_a == 0;
    let h_dmg = Health {
        hp: hp_a as i32,
        max_hp: st.health.max_hp,
        state: if dropped {
            LifeState::Unconscious { stable: false }
        } else {
            st.health.state
        },
        death: st.health.death,
    };
    let ac_dmg = if dropped && !has_kind(st.actor_conds, ConditionKind::Prone) {
        st.actor_conds.push(plain_condition(ConditionKind::Prone))
    } else {
        st.actor_conds
    };
    let heals = dropped && st.potion_left;
    let hp_pot = hp_after_heal(h_dmg.hp as int, POTION_HEAL as int, h_dmg.max_hp as int);
    let awakened = h_dmg.state is Unconscious && hp_pot > 0;
    let h_pot = if heals {
        Health {
            hp: hp_pot as i32,
            max_hp: h_dmg.max_hp,
            state: if awakened {
                LifeState::Conscious
            } else {
                h_dmg.state
            },
            death: if awakened {
                crate::life::DeathSaves { successes: 0, failures: 0 }
            } else {
                h_dmg.death
            },
        }
    } else {
        h_dmg
    };
    let ac_fin = match p.t_cond {
        Some(cs) => if application_resisted(cs, p.actor_mods, d_dmg) {
            ac_dmg
        } else {
            ac_dmg.push(active_from_spec(cs))
        },
        None => ac_dmg,
    };
    let d_fin = match p.t_cond {
        Some(cs) => if cs.save is Some {
            model_step(d_dmg, 1, 20)
        } else {
            d_dmg
        },
        None => d_dmg,
    };
    let h2 = if st.enemy_hp > 0 && hit {
        h_pot
    } else {
        st.health
    };
    let ac2 = if st.enemy_hp > 0 && hit {
        ac_fin
    } else {
        st.actor_conds
    };
    let pot2 = if st.enemy_hp > 0 && hit {
        !heals && st.potion_left
    } else {
        st.potion_left
    };
    let d3 = if st.enemy_hp > 0 {
        if hit {
            d_fin
        } else {
            d_atk
        }
    } else {
        d1
    };
    let ec2 = boundary_conditions(ec1, TurnBoundary::EndOfTurn, p.enemy_mods, d3);
    let d4 = boundary_dice(ec1, TurnBoundary::EndOfTurn, p.enemy_mods, d3);
    DuelState {
        health: h2,
        actor_conds: ac2,
        enemy_conds: ec2,
        potion_left: pot2,
        dice: d4,
        ..st
    }
}

/// Whether the duel is over: the round cap reached, the actor dead, or the
/// enemy down.
pub open spec fn duel_done(st: DuelState) -> bool {
    st.rounds >= MAX_ROUNDS || st.health.state is Dead || st.enemy_hp <= 0
}

/// One round step: count the round, run whoever's turn it is, and pass the
/// turn unless that turn ended the duel.
#[verifier::opaque]
pub open spec fn spec_duel_step(st: DuelState, p: DuelParams) -> DuelState {
    let st1 = DuelState { rounds: st.rounds + 1, ..st };
    let st2 = if st.actor_turn {
        spec_actor_turn(st1, p)
    } else {
        spec_enemy_turn(st1, p)
    };
    if st2.health.state is Dead || st2.enemy_hp <= 0 {
        st2
    } else {
        DuelState { actor_turn: !st2.actor_turn, ..st2 }
    }
}

/// Run the duel to its end: step rounds until the cap is reached, the actor
/// dies, or the enemy falls. The whole outcome is a function of the starting
/// state and the fixed parameters — this is what makes a duel reproducible.
#[verifier::opaque]
pub open spec fn spec_duel_run(st: DuelState, p: DuelParams) -> DuelState
    decreases MAX_ROUNDS - st.rounds
        via spec_duel_run_decreases
{
    if duel_done(st) {
        st
    } else {
        spec_duel_run(spec_duel_step(st, p), p)
    }
}

#[via_fn]
proof fn spec_duel_run_decreases(st: DuelState, p: DuelParams) {
    if !duel_done(st) {
        lemma_duel_step_rounds(st, p);
    }
}

/// A step counts exactly one round.
pub proof fn lemma_duel_step_rounds(st: DuelState, p: DuelParams)
    ensures
        spec_duel_step(st, p).rounds == st.rounds + 1,
{
    reveal(spec_duel_step);
    reveal(spec_actor_turn);
    reveal(spec_enemy_turn);
}

/// Rounds never decrease as the duel runs.
pub proof fn lemma_duel_run_rounds(st: DuelState, p: DuelParams)
    ensures
        spec_duel_run(st, p).rounds >= st.rounds,
    decreases MAX_ROUNDS - st.rounds,
{
    reveal(spec_duel_run);
    if !duel_done(st) {
        lemma_duel_step_rounds(st, p);
        lemma_duel_run_rounds(spec_duel_step(st, p), p);
    }
}

/// The winner a final state names: the actor when the enemy fell and it
/// stands; the enemy when the actor is down and the enemy stands; a draw for
/// a mutual fall or a reached round cap.
pub open spec fn spec_winner(st: DuelState) -> Winner {
    if st.enemy_hp <= 0 && st.health.hp > 0 {
        Winner::Actor
    } else if st.enemy_hp <= 0 {
        Winner::Draw
    } else if st.health.state is Dead || st.health.hp <= 0 {
        Winner::Enemy
    } else {
        Winner::Draw
    }
}

/// Where the initiative record stands in the log: after the opening record
/// and one record per starting condition.
pub open spec fn initiative_index(cfg: DuelConfig, target: Target) -> int {
    1 + parsed_condition_list(cfg.actor_conditions@).len() as int + target.conditions@.len() as int
        + parsed_condition_list(cfg.enemy_conditions@).len() as int
}

/// What a duel's outcome fields must equal: the final state of the round
/// interpreter, a pure function of the seed, the configuration, the target
/// and the weapon list.
pub open spec fn duel_outcome_matches(out: DuelResult, fin: DuelState) -> bool {
    &&& out.winner == spec_winner(fin)
    &&& out.rounds == fin.rounds
    &&& out.actor_hp_end == fin.health.hp
    &&& out.enemy_hp_end == fin.enemy_hp
}



/// Record both sides' starting conditions in the log and build the enemy's
/// starting list: the target's own conditions as bare records, then the
/// extra ones the configuration names.
#[verifier::loop_isolation(false)]
fn announce_starting_conditions(
    target: &Target,
    actor_conditions: &Vec<ActiveCondition>,
    extra_enemy: &Vec<ActiveCondition>,
    log: &mut Vec<Event>,
) -> (enemy_conditions: Vec<ActiveCondition>)
    ensures
        enemy_conditions@ == Seq::new(
            target.conditions@.len(),
            |k: int| plain_condition(target.conditions@[k]),
        ) + extra_enemy@,
        final(log)@.len() == old(log)@.len() + actor_conditions@.len() + target.conditions@.len()
            + extra_enemy@.len(),
        forall|i: int| 0 <= i < old(log)@.len() ==> #[trigger] final(log)@[i] == old(log)@[i],
{
    let ghost log0 = log@;
    let mut i: usize = 0;
    while i < actor_conditions.len()
        invariant
            i <= actor_conditions@.len(),
            log@.len() == log0.len() + i,
            forall|j: int| 0 <= j < log0.len() ==> #[trigger] log@[j] == log0[j],
        decreases actor_conditions@.len() - i,
    {
        log.push(
            Event::ConditionStart { name: copy_name("Actor"), kind: actor_conditions[i].kind },
        );
        i = i + 1;
    }
    let mut enemy_conditions: Vec<ActiveCondition> = Vec::new();
    proof {
        assert(enemy_conditions@ =~= Seq::new(0, |k: int| plain_condition(target.conditions@[k])));
    }
    let mut i: usize = 0;
    while i < target.conditions.len()
        invariant
            i <= target.conditions@.len(),
            log@.len() == log0.len() + actor_conditions@.len() + i,
            forall|j: int| 0 <= j < log0.len() ==> #[trigger] log@[j] == log0[j],
            enemy_conditions@ == Seq::new(
                i as nat,
                |k: int| plain_condition(target.conditions@[k]),
            ),
        decreases target.conditions@.len() - i,
    {
        enemy_conditions.push(crate::conditions::make_active_condition(target.conditions[i]));
        proof {
            assert(enemy_conditions@ =~= Seq::new(
                (i + 1) as nat,
                |k: int| plain_condition(target.conditions@[k]),
            ));
        }
        log.push(
            Event::ConditionStart {
                name: copy_name(target.name.as_str()),
                kind: target.conditions[i],
            },
        );
        i = i + 1;
    }
    let ghost base_conds = enemy_conditions@;
    proof {
        assert(enemy_conditions@ =~= base_conds + extra_enemy@.take(0));
    }
    let mut i: usize = 0;
    while i < extra_enemy.len()
        invariant
            i <= extra_enemy@.len(),
            log@.len() == log0.len() + actor_conditions@.len() + target.conditions@.len() + i,
            forall|j: int| 0 <= j < log0.len() ==> #[trigger] log@[j] == log0[j],
            enemy_conditions@ == base_conds + extra_enemy@.take(i as int),
        decreases extra_enemy@.len() - i,
    {
        enemy_conditions.push(extra_enemy[i]);
        proof {
            assert(extra_enemy@.take(i as int + 1) =~= extra_enemy@.take(i as int).push(
                extra_enemy@[i as int],
            ));
            assert(enemy_conditions@ =~= base_conds + extra_enemy@.take(i as int + 1));
        }
        log.push(
            Event::ConditionStart {
                name: copy_name(target.name.as_str()),
                kind: extra_enemy[i].kind,
            },
        );
        i = i + 1;
    }
    proof {
        assert(extra_enemy@.take(extra_enemy@.len() as int) =~= extra_enemy@);
    }
    enemy_conditions
}

/// One actor turn of a duel, exactly as the round interpreter describes it:
/// a death save when one is due, the start-of-turn boundary, one attack when
/// conscious, the end-of-turn boundary. The ghost arguments name the
/// interpreter state this turn starts from and the duel's fixed parameters.
#[verifier::loop_isolation(false)]
#[verifier::rlimit(100)]
fn duel_actor_turn(
    target: &Target,
    actor_health: &mut Health,
    actor_conditions: &mut Vec<ActiveCondition>,
    enemy_conditions: &Vec<ActiveCondition>,
    enemy_hp: &mut i32,
    dice: &mut Dice,
    log: &mut Vec<Event>,
    base_vantage: Vantage,
    actor_style: AttackStyle,
    actor_attack_bonus: i32,
    actor_damage_mod: i32,
    weapon_dice: DamageDice,
    actor_dtype: DamageType,
    resist: &Vec<DamageType>,
    vuln: &Vec<DamageType>,
    immune: &Vec<DamageType>,
    actor_mods: &SaveModifiers,
    Ghost(st1): Ghost<DuelState>,
    Ghost(p): Ghost<DuelParams>,
)
    requires
        st1.health == *old(actor_health),
        st1.actor_conds == old(actor_conditions)@,
        st1.enemy_conds == enemy_conditions@,
        st1.enemy_hp == *old(enemy_hp) as int,
        st1.dice == old(dice)@,
        p.base_vantage == base_vantage,
        p.actor_style == actor_style,
        p.attack_bonus == actor_attack_bonus as int,
        p.damage_mod == actor_damage_mod as int,
        p.weapon_dice == weapon_dice,
        p.enemy_eff_ac == target.ac + cover_bonus(target.cover),
        p.resisted == resist@.contains(actor_dtype),
        p.vulnerable == vuln@.contains(actor_dtype),
        p.immune == immune@.contains(actor_dtype),
        p.actor_mods == *actor_mods,
        save_modifiers_bounded(*actor_mods),
        death_saves_bounded(old(actor_health).death),
        target_bounded(*target),
        weapon_dice.sides >= 1,
        -1_000_000 <= actor_attack_bonus <= 1_000_000,
        0 <= actor_damage_mod <= 1_000_000,
        0 < *old(enemy_hp) <= 1_000_000,
        old(actor_health).state is Dead ==> old(actor_health).hp == 0,
    ensures
        *final(actor_health) == spec_actor_turn(st1, p).health,
        final(actor_conditions)@ == spec_actor_turn(st1, p).actor_conds,
        *final(enemy_hp) as int == spec_actor_turn(st1, p).enemy_hp,
        final(dice)@ == spec_actor_turn(st1, p).dice,
        spec_actor_turn(st1, p).rounds == st1.rounds,
        spec_actor_turn(st1, p).actor_turn == st1.actor_turn,
        spec_actor_turn(st1, p).enemy_conds == st1.enemy_conds,
        spec_actor_turn(st1, p).potion_left == st1.potion_left,
        0 <= *final(enemy_hp) <= *old(enemy_hp),
        final(actor_health).max_hp == old(actor_health).max_hp,
        final(actor_health).hp == old(actor_health).hp || final(actor_health).hp == 1,
        death_saves_bounded(final(actor_health).death),
        final(actor_health).state is Dead ==> final(actor_health).hp == 0,
        final(log)@.len() >= old(log)@.len(),
        forall|i: int| 0 <= i < old(log)@.len() ==> #[trigger] final(log)@[i] == old(log)@[i],
{
    let ghost lp0 = log@;
    let _ = process_death_save_start_of_turn("Actor", actor_health, dice, log);
    proof {
        crate::events::lemma_prefix_preserves_index(lp0, log@);
    }
    let ghost lp1 = log@;
    process_turn_boundary(
        TurnBoundary::StartOfTurn,
        "Actor",
        actor_conditions,
        actor_mods,
        dice,
        log,
    );
    proof {
        crate::events::lemma_prefix_preserves_index(lp1, log@);
    }
    match actor_health.state {
        LifeState::Dead => {
            log.push(Event::TurnSkipped { name: copy_name("Actor"), dead: true });
        },
        LifeState::Unconscious { .. } => {
            log.push(Event::TurnSkipped { name: copy_name("Actor"), dead: false });
        },
        LifeState::Conscious => {
            let cond_v = crate::conditions::vantage_from_conditions(
                actor_conditions,
                enemy_conditions,
                actor_style,
            );
            let final_mode = base_vantage.combine(cond_v).to_admode();
            let eff_ac = target.ac + target.cover.ac_bonus();
            log.push(
                Event::Defense {
                    name: copy_name(target.name.as_str()),
                    base_ac: target.ac,
                    cover: target.cover,
                },
            );
            let atk = attack(dice, final_mode, actor_attack_bonus, eff_ac);
            let hit = atk.hit;
            let crit = atk.is_crit;
            log.push(
                Event::Attack {
                    attacker: copy_name("Actor"),
                    raw_rolls: atk.raw_rolls,
                    roll: atk.roll,
                    total: atk.total,
                    ac: atk.ac,
                    hit: atk.hit,
                    crit: atk.is_crit,
                    nat1: atk.nat1,
                },
            );
            if hit {
                let ghost pre_dice = dice@;
                let raw = damage(dice, weapon_dice, actor_damage_mod, crit);
                proof {
                    lemma_dice_sum_bounds(
                        pre_dice,
                        rolled_count(weapon_dice.count, crit),
                        weapon_dice.sides,
                    );
                    assert(rolled_count(weapon_dice.count, crit) * weapon_dice.sides as int <= 255
                        * 255) by (nonlinear_arith)
                        requires
                            0 <= rolled_count(weapon_dice.count, crit) <= 255,
                            0 <= weapon_dice.sides as int <= 255,
                    ;
                }
                let dmg = adjust_damage_by_type(raw, actor_dtype, resist, vuln, immune);
                let before = *enemy_hp;
                *enemy_hp = if *enemy_hp - dmg < 0 {
                    0
                } else {
                    *enemy_hp - dmg
                };
                log.push(
                    Event::DamageRoll {
                        attacker: copy_name("Actor"),
                        dice: weapon_dice,
                        modifier: actor_damage_mod,
                        crit,
                        total: dmg,
                        dtype: actor_dtype,
                    },
                );
                log.push(
                    Event::HpChange {
                        name: copy_name(target.name.as_str()),
                        before,
                        after: *enemy_hp,
                    },
                );
            }
        },
    }
    let ghost lp2 = log@;
    process_turn_boundary(
        TurnBoundary::EndOfTurn,
        "Actor",
        actor_conditions,
        actor_mods,
        dice,
        log,
    );
    proof {
        crate::events::lemma_prefix_preserves_index(lp2, log@);
        assert(spec_actor_turn(st1, p).rounds == st1.rounds && spec_actor_turn(st1, p).actor_turn
            == st1.actor_turn && spec_actor_turn(st1, p).enemy_conds == st1.enemy_conds
            && spec_actor_turn(st1, p).potion_left == st1.potion_left && *actor_health
            == spec_actor_turn(st1, p).health && *enemy_hp as int == spec_actor_turn(st1, p).enemy_hp
            && actor_conditions@ == spec_actor_turn(st1, p).actor_conds && dice@ == spec_actor_turn(
            st1,
            p,
        ).dice) by {
            reveal(spec_actor_turn);
        };
        assert(forall|i: int| 0 <= i < lp0.len() ==> #[trigger] log@[i] == lp0[i]);
    }
}

/// One enemy turn of a duel, exactly as the round interpreter describes it:
/// the start-of-turn boundary on the enemy's conditions, one attack at the
/// actor when the enemy stands (damage through the life machine, the
/// one-shot potion, an on-hit condition with its resisting save), the
/// end-of-turn boundary. Written for a living actor; the duel never steps a
/// dead one.
#[verifier::loop_isolation(false)]
#[verifier::rlimit(100)]
fn duel_enemy_turn(
    target: &Target,
    actor_health: &mut Health,
    actor_conditions: &mut Vec<ActiveCondition>,
    enemy_conditions: &mut Vec<ActiveCondition>,
    enemy_hp: i32,
    potion_left: &mut bool,
    dice: &mut Dice,
    log: &mut Vec<Event>,
    t_to_hit: i32,
    t_dice: DamageDice,
    t_ranged: bool,
    t_dtype: DamageType,
    t_cond: Option<ConditionSpec>,
    actor_mods: &SaveModifiers,
    enemy_mods: &SaveModifiers,
    Ghost(st1): Ghost<DuelState>,
    Ghost(p): Ghost<DuelParams>,
)
    requires
        st1.health == *old(actor_health),
        st1.actor_conds == old(actor_conditions)@,
        st1.enemy_conds == old(enemy_conditions)@,
        st1.enemy_hp == enemy_hp as int,
        st1.potion_left == *old(potion_left),
        st1.dice == old(dice)@,
        p.t_to_hit == t_to_hit as int,
        p.t_dice == t_dice,
        p.t_style == (if t_ranged {
            AttackStyle::Ranged
        } else {
            AttackStyle::Melee
        }),
        p.t_cond == t_cond,
        p.actor_mods == *actor_mods,
        p.enemy_mods == *enemy_mods,
        save_modifiers_bounded(*actor_mods),
        save_modifiers_bounded(*enemy_mods),
        death_saves_bounded(old(actor_health).death),
        !(old(actor_health).state is Dead),
        t_dice.sides >= 1,
        -1_000_000 <= t_to_hit <= 1_000_000,
        -1_000_000 <= old(actor_health).hp <= 1_000_000,
        -1_000_000 <= old(actor_health).max_hp <= 1_000_000,
    ensures
        *final(actor_health) == spec_enemy_turn(st1, p).health,
        final(actor_conditions)@ == spec_enemy_turn(st1, p).actor_conds,
        final(enemy_conditions)@ == spec_enemy_turn(st1, p).enemy_conds,
        final(dice)@ == spec_enemy_turn(st1, p).dice,
        *final(potion_left) == spec_enemy_turn(st1, p).potion_left,
        spec_enemy_turn(st1, p).rounds == st1.rounds,
        spec_enemy_turn(st1, p).actor_turn == st1.actor_turn,
        spec_enemy_turn(st1, p).enemy_hp == st1.enemy_hp,
        final(actor_health).max_hp == old(actor_health).max_hp,
        (final(actor_health).hp >= 0 || final(actor_health).hp == old(actor_health).hp
            || final(actor_health).hp == old(actor_health).max_hp),
        (final(actor_health).hp <= old(actor_health).hp
            || final(actor_health).hp <= old(actor_health).max_hp
            || final(actor_health).hp == 0),
        death_saves_bounded(final(actor_health).death),
        final(actor_health).state is Dead ==> final(actor_health).hp == 0,
        final(log)@.len() >= old(log)@.len(),
        forall|i: int| 0 <= i < old(log)@.len() ==> #[trigger] final(log)@[i] == old(log)@[i],
{
    let ghost lp3 = log@;
    process_turn_boundary(
        TurnBoundary::StartOfTurn,
        target.name.as_str(),
        enemy_conditions,
        enemy_mods,
        dice,
        log,
    );
    proof {
        crate::events::lemma_prefix_preserves_index(lp3, log@);
    }
    if enemy_hp > 0 {
        let style = if t_ranged {
            AttackStyle::Ranged
        } else {
            AttackStyle::Melee
        };
        let cond_v = crate::conditions::vantage_from_conditions(
            enemy_conditions,
            actor_conditions,
            style,
        );
        let final_mode = Vantage::Normal.combine(cond_v).to_admode();
        log.push(
            Event::Defense {
                name: copy_name("Actor"),
                base_ac: DEFAULT_ACTOR_AC,
                cover: Cover::Open,
            },
        );
        let atk = attack(dice, final_mode, t_to_hit, DEFAULT_ACTOR_AC);
        let hit = atk.hit;
        let crit = atk.is_crit;
        log.push(
            Event::Attack {
                attacker: copy_name(target.name.as_str()),
                raw_rolls: atk.raw_rolls,
                roll: atk.roll,
                total: atk.total,
                ac: atk.ac,
                hit: atk.hit,
                crit: atk.is_crit,
                nat1: atk.nat1,
            },
        );
        if hit {
            let ghost pre_dice = dice@;
            let dmg = damage(dice, t_dice, 0, crit);
            proof {
                lemma_dice_sum_bounds(pre_dice, rolled_count(t_dice.count, crit), t_dice.sides);
                assert(rolled_count(t_dice.count, crit) * t_dice.sides as int <= 255 * 255)
                    by (nonlinear_arith)
                    requires
                        0 <= rolled_count(t_dice.count, crit) <= 255,
                        0 <= t_dice.sides as int <= 255,
                ;
            }
            log.push(
                Event::DamageRoll {
                    attacker: copy_name(target.name.as_str()),
                    dice: t_dice,
                    modifier: 0,
                    crit,
                    total: dmg,
                    dtype: t_dtype,
                },
            );
            let ghost lp4 = log@;
            let dropped = apply_damage("Actor", actor_health, actor_conditions, dmg, log);
            proof {
                crate::events::lemma_prefix_preserves_index(lp4, log@);
            }
            if dropped && *potion_left {
                let ghost lp5 = log@;
                heal("Actor", actor_health, POTION_HEAL, log);
                proof {
                    crate::events::lemma_prefix_preserves_index(lp5, log@);
                }
                *potion_left = false;
                log.push(Event::PotionUsed { name: copy_name("Actor"), amount: POTION_HEAL });
            }
            match t_cond {
                Some(spec) => {
                    let ghost lp6 = log@;
                    maybe_apply_on_hit_condition(
                        "Actor",
                        actor_conditions,
                        &spec,
                        actor_mods,
                        dice,
                        log,
                    );
                    proof {
                        crate::events::lemma_prefix_preserves_index(lp6, log@);
                    }
                },
                None => {},
            }
        }
    }
    let ghost lp7 = log@;
    process_turn_boundary(
        TurnBoundary::EndOfTurn,
        target.name.as_str(),
        enemy_conditions,
        enemy_mods,
        dice,
        log,
    );
    proof {
        crate::events::lemma_prefix_preserves_index(lp7, log@);
        assert(spec_enemy_turn(st1, p).rounds == st1.rounds && spec_enemy_turn(st1, p).actor_turn
            == st1.actor_turn && spec_enemy_turn(st1, p).enemy_hp == st1.enemy_hp && *actor_health
            == spec_enemy_turn(st1, p).health && actor_conditions@ == spec_enemy_turn(
            st1,
            p,
        ).actor_conds && enemy_conditions@ == spec_enemy_turn(st1, p).enemy_conds && dice@
            == spec_enemy_turn(st1, p).dice && *potion_left == spec_enemy_turn(st1, p).potion_left)
            by {
            reveal(spec_enemy_turn);
        };
        assert(forall|i: int| 0 <= i < lp3.len() ==> #[trigger] log@[i] == lp3[i]);
    }
}

/// Run one duel from an explicit seed: full two-sided combat with
/// initiative, alternating turns, conditions, death saves and the optional
/// reactive potion. Configuration errors are reported before any dice roll.
#[verifier::loop_isolation(false)]
#[verifier::rlimit(100)]
#[verifier::spinoff_prover]
fn run_duel(cfg: &DuelConfig, seed: u64, target: &Target, weapons: &Vec<Weapon>) -> (r: Result<
    DuelResult,
    SimError,
>)
    requires
        target_bounded(*target),
        duel_config_bounded(*cfg),
    ensures
        (r is Err) == (spec_duel_error(*cfg, *target, weapons@) is Some),
        spec_duel_error(*cfg, *target, weapons@) matches Some(e) ==> r == Err::<
            DuelResult,
            SimError,
        >(e),
        r matches Ok(out) ==> duel_result_consistent(out, *target, actor_start_hp(*cfg)),
        r matches Ok(out) ==> duel_outcome_matches(
            out,
            spec_duel_run(
                spec_duel_init(*cfg, seed, *target),
                spec_duel_params(*cfg, *target, weapons@),
            ),
        ),
        r matches Ok(out) ==> target.hp > 0 ==> out.rounds >= 1,
        r matches Ok(out) ==> {
            let idx = initiative_index(*cfg, *target);
            &&& 0 <= idx < out.log@.len()
            &&& (out.log@[idx] matches Event::Initiative { actor_total, enemy_total, actor_first }
                && actor_total == spec_actor_init_total(seed) && enemy_total
                == spec_enemy_init_total(seed, *target) && actor_first == (actor_total
                >= enemy_total))
        },
{
    proof {
        lemma_first_weapon_index(weapons@, chars_bytes(cfg.weapon@));
    }
    if target.attacks.len() == 0 {
        return Err(SimError::TargetHasNoAttacks);
    }
    let wname = cfg.weapon.as_str();
    proof {
        assert(wname.spec_bytes() == chars_bytes(cfg.weapon@));
    }
    let wi = match find_weapon(weapons, wname) {
        Some(i) => i,
        None => {
            proof {
                lemma_no_weapon_match(weapons@, chars_bytes(cfg.weapon@));
            }
            return Err(SimError::WeaponNotFound);
        },
    };
    proof {
        lemma_found_weapon_is_first(weapons@, chars_bytes(cfg.weapon@), wi as int);
    }
    let weapon_dice = if cfg.two_handed {
        match weapons[wi].versatile {
            Some(d) => d,
            None => weapons[wi].dice,
        }
    } else {
        weapons[wi].dice
    };
    let t_to_hit = target.attacks[0].to_hit;
    let t_dice = target.attacks[0].dice;
    let t_ranged = target.attacks[0].ranged;
    let t_dtype = match target.attacks[0].damage_type {
        Some(d) => d,
        None => DamageType::Slashing,
    };
    let t_cond = target.attacks[0].apply_condition;
    if weapon_dice.sides < 1 || t_dice.sides < 1 {
        return Err(SimError::InvalidDice);
    }

    let actor = sample_fighter();
    let actor_hp0 = match cfg.actor_hp {
        Some(x) => x,
        None => DEFAULT_ACTOR_HP,
    };
    let mut actor_health = Health::new(actor_hp0);
    let mut enemy_hp = target.hp;
    let actor_ability = if weapons[wi].ranged || weapons[wi].finesse {
        Ability::Dex
    } else {
        Ability::Str
    };
    let actor_style = if weapons[wi].ranged {
        AttackStyle::Ranged
    } else {
        AttackStyle::Melee
    };
    let actor_attack_bonus = actor.attack_bonus(actor_ability, cfg.proficient);
    let actor_damage_mod = actor.damage_mod(actor_ability);
    let wn = weapons[wi].name.as_str();
    proof {
        assert(wn.spec_bytes() == chars_bytes(weapons@[wi as int].name@));
    }
    let actor_dtype = match weapons[wi].damage_type {
        Some(d) => d,
        None => match preset_damage_type(wn) {
            Some(d) => d,
            None => DamageType::Slashing,
        },
    };
    let actor_mods = actor_save_modifiers(&actor);
    let enemy_mods = target.save_modifiers();
    let resist = collect_damage_types(&target.resistances);
    let vuln = collect_damage_types(&target.vulnerabilities);
    let immune = collect_damage_types(&target.immunities);

    let mut log: Vec<Event> = Vec::new();
    log.push(
        Event::DuelStart {
            actor_ac: DEFAULT_ACTOR_AC,
            actor_hp: actor_hp0,
            enemy_name: copy_name(target.name.as_str()),
            enemy_ac: target.ac,
            enemy_hp: target.hp,
        },
    );
    let ghost start_event = log@[0];
    proof {
        assert(start_event matches Event::DuelStart {
            actor_ac,
            actor_hp,
            enemy_name,
            enemy_ac,
            enemy_hp,
        } && actor_ac == DEFAULT_ACTOR_AC && actor_hp == actor_start_hp(*cfg) && enemy_name@
            == target.name@ && enemy_ac == target.ac && enemy_hp == target.hp);
    }

    let mut actor_conditions = parse_condition_list(&cfg.actor_conditions);
    let extra_enemy = parse_condition_list(&cfg.enemy_conditions);
    let ghost log_before_conds = log@;
    let mut enemy_conditions = announce_starting_conditions(
        target,
        &actor_conditions,
        &extra_enemy,
        &mut log,
    );
    proof {
        assert(forall|i: int|
            0 <= i < log_before_conds.len() ==> #[trigger] log@[i] == log_before_conds[i]);
        assert(log@[0] == start_event);
        assert(enemy_conditions@ == initial_enemy_conds(*cfg, *target));
    }

    let mut dice = Dice::from_seed(seed);
    let actor_init = dice.d20(AdMode::Normal) as i32 + actor.ability_mod(Ability::Dex);
    let enemy_init = dice.d20(AdMode::Normal) as i32 + target.dexterity_mod();
    let mut actor_turn = actor_init >= enemy_init;
    let ghost init_idx = log@.len() as int;
    log.push(
        Event::Initiative {
            actor_total: actor_init,
            enemy_total: enemy_init,
            actor_first: actor_turn,
        },
    );
    let ghost init_event = log@[init_idx];

    let base_vantage = Vantage::from_admode(cfg.advantage);
    let mut potion_left = cfg.auto_potion;
    let mut rounds: u32 = 0;

    let ghost p = spec_duel_params(*cfg, *target, weapons@);
    let ghost st0 = spec_duel_init(*cfg, seed, *target);
    let ghost fin = spec_duel_run(st0, p);
    proof {
        let fw = first_weapon_index(weapons@, chars_bytes(cfg.weapon@));
        let w = weapons@[fw];
        assert(p.attack_bonus == actor_attack_bonus as int && p.damage_mod
            == actor_damage_mod as int && 0 <= actor_damage_mod <= 5 && -1_000_000
            <= actor_attack_bonus <= 1_000_000) by {
            reveal(spec_duel_params);
            assert(ability_modifier(16) == 3);
            assert(ability_modifier(14) == 2);
        };
        assert(p.base_vantage == base_vantage && p.actor_style == actor_style && p.weapon_dice
            == weapon_dice && p.enemy_eff_ac == target.ac + cover_bonus(target.cover) && p.t_to_hit
            == t_to_hit as int && p.t_dice == t_dice && p.t_cond == t_cond) by {
            reveal(spec_duel_params);
        };
        assert(p.t_style == (if t_ranged {
            AttackStyle::Ranged
        } else {
            AttackStyle::Melee
        })) by {
            reveal(spec_duel_params);
        };
        assert(actor_dtype == spec_weapon_damage_type(w));
        assert(p.resisted == resist@.contains(actor_dtype) && p.vulnerable == vuln@.contains(
            actor_dtype,
        ) && p.immune == immune@.contains(actor_dtype)) by {
            reveal(spec_duel_params);
        };

        assert(actor_mods == p.actor_mods) by {
            reveal(spec_duel_params);
            let profs = seq![Ability::Str, Ability::Con];
            assert(actor.save_proficiencies@ == profs);
            assert(profs.contains(Ability::Str)) by {
                assert(profs[0] == Ability::Str);
            };
            assert(profs.contains(Ability::Con)) by {
                assert(profs[1] == Ability::Con);
            };
            assert forall|a: Ability| a != Ability::Str && a != Ability::Con
                implies !profs.contains(a) by {
                assert(forall|j: int| 0 <= j < profs.len() ==> #[trigger] profs[j] == Ability::Str
                    || profs[j] == Ability::Con);
            }
            assert(actor_mods.str_ as int == actor.spec_save_mod(Ability::Str));
            assert(actor_mods.dex as int == actor.spec_save_mod(Ability::Dex));
            assert(actor_mods.con as int == actor.spec_save_mod(Ability::Con));
            assert(actor_mods.int_ as int == actor.spec_save_mod(Ability::Int));
            assert(actor_mods.wis as int == actor.spec_save_mod(Ability::Wis));
            assert(actor_mods.cha as int == actor.spec_save_mod(Ability::Cha));
            assert(ability_modifier(10) == 0 && ability_modifier(12) == 1 && ability_modifier(8)
                == -1);
        };

        assert(enemy_mods == p.enemy_mods) by {
            reveal(spec_duel_params);
            assert(enemy_mods.str_ as int == spec_target_ability_mod(*target, Ability::Str));
            assert(enemy_mods.dex as int == spec_target_ability_mod(*target, Ability::Dex));
            assert(enemy_mods.con as int == spec_target_ability_mod(*target, Ability::Con));
            assert(enemy_mods.int_ as int == spec_target_ability_mod(*target, Ability::Int));
            assert(enemy_mods.wis as int == spec_target_ability_mod(*target, Ability::Wis));
            assert(enemy_mods.cha as int == spec_target_ability_mod(*target, Ability::Cha));
        };

        assert(actor_init as int == spec_actor_init_total(seed) && enemy_init as int
            == spec_enemy_init_total(seed, *target));
        assert(dice@ == st0.dice && actor_turn == st0.actor_turn && actor_health == st0.health
            && enemy_hp as int == st0.enemy_hp && actor_conditions@ == st0.actor_conds
            && enemy_conditions@ == st0.enemy_conds && st0.rounds == 0 && st0.potion_left
            == potion_left) by {
            reveal(spec_duel_init);
        };

        assert(init_idx == initiative_index(*cfg, *target));
        assert(init_event matches Event::Initiative { actor_total, enemy_total, actor_first }
            && actor_total == spec_actor_init_total(seed) && enemy_total == spec_enemy_init_total(
            seed,
            *target,
        ) && actor_first == (actor_total >= enemy_total));
    }

    while rounds < MAX_ROUNDS && !matches!(actor_health.state, LifeState::Dead) && enemy_hp > 0
        invariant
            rounds <= MAX_ROUNDS,
            actor_health.max_hp == actor_hp0,
            (if actor_hp0 <= 0 {
                actor_hp0 as int
            } else {
                0
            }) <= actor_health.hp <= (if actor_hp0 >= 1 {
                actor_hp0 as int
            } else {
                1
            }),
            if target.hp >= 0 {
                0 <= enemy_hp <= target.hp
            } else {
                enemy_hp == target.hp
            },
            death_saves_bounded(actor_health.death),
            actor_health.state is Dead ==> actor_health.hp == 0,
            rounds == 0 ==> actor_health.hp == actor_hp0 && enemy_hp == target.hp,
            log@.len() >= 2,
            log@[0] == start_event,
            0 <= init_idx < log@.len(),
            log@[init_idx] == init_event,
            spec_duel_run(
                DuelState {
                    rounds: rounds as int,
                    actor_turn,
                    potion_left,
                    health: actor_health,
                    enemy_hp: enemy_hp as int,
                    actor_conds: actor_conditions@,
                    enemy_conds: enemy_conditions@,
                    dice: dice@,
                },
                p,
            ) == fin,
        decreases MAX_ROUNDS - rounds,
    {
        let ghost st_pre = DuelState {
            rounds: rounds as int,
            actor_turn,
            potion_left,
            health: actor_health,
            enemy_hp: enemy_hp as int,
            actor_conds: actor_conditions@,
            enemy_conds: enemy_conditions@,
            dice: dice@,
        };
        proof {
            assert(!duel_done(st_pre));
        }
        rounds = rounds + 1;
        log.push(Event::RoundStart { round: rounds });

        if actor_turn {
            let ghost st1 = DuelState { rounds: st_pre.rounds + 1, ..st_pre };
            duel_actor_turn(
                target,
                &mut actor_health,
                &mut actor_conditions,
                &enemy_conditions,
                &mut enemy_hp,
                &mut dice,
                &mut log,
                base_vantage,
                actor_style,
                actor_attack_bonus,
                actor_damage_mod,
                weapon_dice,
                actor_dtype,
                &resist,
                &vuln,
                &immune,
                &actor_mods,
                Ghost(st1),
                Ghost(p),
            );
        } else {
            let ghost st1 = DuelState { rounds: st_pre.rounds + 1, ..st_pre };
            duel_enemy_turn(
                target,
                &mut actor_health,
                &mut actor_conditions,
                &mut enemy_conditions,
                enemy_hp,
                &mut potion_left,
                &mut dice,
                &mut log,
                t_to_hit,
                t_dice,
                t_ranged,
                t_dtype,
                t_cond,
                &actor_mods,
                &enemy_mods,
                Ghost(st1),
                Ghost(p),
            );
        }

        if !(matches!(actor_health.state, LifeState::Dead) || enemy_hp <= 0) {
            actor_turn = !actor_turn;
        }
        proof {
            let st_post = DuelState {
                rounds: rounds as int,
                actor_turn,
                potion_left,
                health: actor_health,
                enemy_hp: enemy_hp as int,
                actor_conds: actor_conditions@,
                enemy_conds: enemy_conditions@,
                dice: dice@,
            };
            assert(st_post == spec_duel_step(st_pre, p)) by {
                reveal(spec_duel_step);
            };
            assert(spec_duel_run(st_pre, p) == spec_duel_run(st_post, p)) by {
                reveal(spec_duel_run);
            };
        }
    }

    proof {
        let cur = DuelState {
            rounds: rounds as int,
            actor_turn,
            potion_left,
            health: actor_health,
            enemy_hp: enemy_hp as int,
            actor_conds: actor_conditions@,
            enemy_conds: enemy_conditions@,
            dice: dice@,
        };
        assert(duel_done(cur));
        assert(cur == fin) by {
            reveal(spec_duel_run);
        };
        if target.hp > 0 {
            assert(!duel_done(st0)) by {
                reveal(spec_duel_init);
            };
            lemma_duel_step_rounds(st0, p);
            lemma_duel_run_rounds(spec_duel_step(st0, p), p);
            assert(fin.rounds >= 1) by {
                reveal(spec_duel_run);
            };
        }
    }
    let winner = if enemy_hp <= 0 && actor_health.hp > 0 {
        Winner::Actor
    } else if enemy_hp <= 0 {
        Winner::Draw
    } else if matches!(actor_health.state, LifeState::Dead) || actor_health.hp <= 0 {
        Winner::Enemy
    } else {
        Winner::Draw
    };
    log.push(Event::DuelEnd { rounds, actor_hp: actor_health.hp, enemy_hp });
    Ok(DuelResult { winner, rounds, actor_hp_end: actor_health.hp, enemy_hp_end: enemy_hp, log })
}

/// Simulate a full duel between the baked-in fighter and the target, seeded
/// from the configuration: reproducible bit for bit for a given seed and
/// inputs. Configuration errors are reported before any dice are rolled.
pub fn simulate_duel(cfg: &DuelConfig, target: &Target, weapons: &Vec<Weapon>) -> (r: Result<
    DuelResult,
    SimError,
>)
    requires
        target_bounded(*target),
        duel_config_bounded(*cfg),
    ensures
        (r is Err) == (spec_duel_error(*cfg, *target, weapons@) is Some),
        spec_duel_error(*cfg, *target, weapons@) matches Some(e) ==> r == Err::<
            DuelResult,
            SimError,
        >(e),
        r matches Ok(out) ==> duel_result_consistent(out, *target, actor_start_hp(*cfg)),
        r matches Ok(out) ==> duel_outcome_matches(
            out,
            spec_duel_run(
                spec_duel_init(*cfg, cfg.seed, *target),
                spec_duel_params(*cfg, *target, weapons@),
            ),
        ),
        r matches Ok(out) ==> target.hp > 0 ==> out.rounds >= 1,
        r matches Ok(out) ==> {
            let idx = initiative_index(*cfg, *target);
            &&& 0 <= idx < out.log@.len()
            &&& (out.log@[idx] matches Event::Initiative { actor_total, enemy_total, actor_first }
                && actor_total == spec_actor_init_total(cfg.seed) && enemy_total
                == spec_enemy_init_total(cfg.seed, *target) && actor_first == (actor_total
                >= enemy_total))
        },
{
    run_duel(cfg, cfg.seed, target, weapons)
}

/// Aggregate counts over a Monte Carlo batch of duels.
#[derive(Debug, Clone, Copy, PartialEq, Eq, Structural)]
pub struct DuelStats {
    pub samples: u32,
    pub actor_wins: u32,
    pub enemy_wins: u32,
    pub draws: u32,
    pub rounds_total: u64,
}


/// The final interpreter state of Monte Carlo sample `i`: one whole duel at
/// seed `cfg.seed + i` (wrapping), independent of every other sample.
pub open spec fn spec_sample_final(cfg: DuelConfig, target: Target, ws: Seq<Weapon>, i: int) -> DuelState {
    spec_duel_run(
        spec_duel_init(cfg, vstd::wrapping::u64_specs::wrapping_add(cfg.seed, i as u64), target),
        spec_duel_params(cfg, target, ws),
    )
}

/// The exact tally of the first `n` samples: actor wins, enemy wins, draws,
/// and the sum of the samples' round counts.
pub open spec fn spec_duel_tally(cfg: DuelConfig, target: Target, ws: Seq<Weapon>, n: nat) -> (
    int,
    int,
    int,
    int,
)
    decreases n,
{
    if n == 0 {
        (0int, 0int, 0int, 0int)
    } else {
        let prev = spec_duel_tally(cfg, target, ws, (n - 1) as nat);
        let fin = spec_sample_final(cfg, target, ws, n - 1);
        (
            prev.0 + if spec_winner(fin) is Actor {
                1int
            } else {
                0int
            },
            prev.1 + if spec_winner(fin) is Enemy {
                1int
            } else {
                0int
            },
            prev.2 + if spec_winner(fin) is Draw {
                1int
            } else {
                0int
            },
            prev.3 + fin.rounds,
        )
    }
}

/// Run the identical duel configuration `samples` times, sample `i` seeded
/// with `cfg.seed + i`, so no sample depends on any other. Every sample is
/// counted in exactly one of the three outcome buckets.
#[verifier::loop_isolation(false)]
pub fn simulate_duel_many(
    cfg: &DuelConfig,
    target: &Target,
    weapons: &Vec<Weapon>,
    samples: u32,
) -> (r: Result<DuelStats, SimError>)
    requires
        target_bounded(*target),
        duel_config_bounded(*cfg),
    ensures
        r matches Ok(s) ==> {
            &&& s.samples == samples
            &&& s.actor_wins + s.enemy_wins + s.draws == samples
            &&& s.rounds_total <= samples * (MAX_ROUNDS as u64)
            &&& {
                let tally = spec_duel_tally(*cfg, *target, weapons@, samples as nat);
                s.actor_wins == tally.0 && s.enemy_wins == tally.1 && s.draws == tally.2
                    && s.rounds_total == tally.3
            }
        },
        (r is Err) == (samples > 0 && spec_duel_error(*cfg, *target, weapons@) is Some),
        samples > 0 ==> (spec_duel_error(*cfg, *target, weapons@) matches Some(e) ==> r == Err::<
            DuelStats,
            SimError,
        >(e)),
{
    let mut actor_wins: u32 = 0;
    let mut enemy_wins: u32 = 0;
    let mut draws: u32 = 0;
    let mut rounds_total: u64 = 0;
    let mut i: u32 = 0;
    while i < samples
        invariant
            i <= samples,
            actor_wins + enemy_wins + draws == i,
            rounds_total <= i * (MAX_ROUNDS as u64),
            i > 0 ==> spec_duel_error(*cfg, *target, weapons@) is None,
            ({
                let tally = spec_duel_tally(*cfg, *target, weapons@, i as nat);
                actor_wins == tally.0 && enemy_wins == tally.1 && draws == tally.2 && rounds_total
                    == tally.3
            }),
        decreases samples - i,
    {
        let seed = cfg.seed.wrapping_add(i as u64);
        match run_duel(cfg, seed, target, weapons) {
            Err(e) => {
                return Err(e);
            },
            Ok(out) => {
                proof {
                    assert(spec_duel_tally(*cfg, *target, weapons@, (i + 1) as nat).0
                        == spec_duel_tally(*cfg, *target, weapons@, i as nat).0 + (
                    if spec_winner(spec_sample_final(*cfg, *target, weapons@, i as int)) is Actor {
                        1int
                    } else {
                        0int
                    }));
                    assert(out.winner == spec_winner(
                        spec_sample_final(*cfg, *target, weapons@, i as int),
                    ));
                    assert(out.rounds == spec_sample_final(*cfg, *target, weapons@, i as int).rounds);
                }
                match out.winner {
                    Winner::Actor => {
                        actor_wins = actor_wins + 1;
                    },
                    Winner::Enemy => {
                        enemy_wins = enemy_wins + 1;
                    },
                    Winner::Draw => {
                        draws = draws + 1;
                    },
                }
                proof {
                    assert(i * (MAX_ROUNDS as u64) + (MAX_ROUNDS as u64) == (i + 1) * (
                    MAX_ROUNDS as u64)) by (nonlinear_arith);
                }
                rounds_total = rounds_total + out.rounds as u64;
            },
        }
        i = i + 1;
    }
    Ok(DuelStats { samples, actor_wins, enemy_wins, draws, rounds_total })
}


/// The hard ceiling on encounter rounds: each round covers every
/// participant, so more headroom than a duel gets.
pub const ENCOUNTER_MAX_ROUNDS: u32 = 120;

/// An encounter definition: a name, the enemy list, and the actor's
/// target-selection strategy.
#[derive(Debug, Clone)]
pub struct EncounterSpec {
    pub name: String,
    pub focus: FocusStrategy,
    pub enemies: Vec<Target>,
}

/// Configuration of an encounter run: the seed, an optional actor HP
/// override, and the actor's starting conditions.
#[derive(Debug, Clone)]
pub struct EncounterConfig {
    pub seed: u64,
    pub actor_hp: Option<i32>,
    pub actor_conditions: Vec<String>,
}

/// Terminal snapshot of an encounter: whether the actor stands, rounds
/// elapsed, how many enemies remain, and the full event log.
#[derive(Debug, Clone)]
pub struct EncounterResult {
    pub survived: bool,
    pub rounds: u32,
    pub remaining_enemies: u32,
    pub log: Vec<Event>,
}


/// The actor's starting hit points in an encounter: the override, or the
/// default.
pub open spec fn actor_start_hp_enc(cfg: EncounterConfig) -> int {
    match cfg.actor_hp {
        Some(x) => x as int,
        None => DEFAULT_ACTOR_HP as int,
    }
}

/// Every enemy within machine bounds, and the roster itself of sane size.
pub open spec fn encounter_bounded(enc: EncounterSpec) -> bool {
    &&& enc.enemies@.len() <= 1_000_000
    &&& forall|i: int| 0 <= i < enc.enemies@.len() ==> target_bounded(#[trigger] enc.enemies@[i])
}

/// The HP override within machine bounds.
pub open spec fn encounter_config_bounded(cfg: EncounterConfig) -> bool {
    match cfg.actor_hp {
        Some(x) => -1_000_000 <= x <= 1_000_000,
        None => true,
    }
}

/// The dice the actor swings in an encounter: the default longsword, held
/// two-handed when it offers versatile dice.
pub open spec fn spec_encounter_weapon_dice(w: Weapon) -> DamageDice {
    if w.versatile is Some {
        w.versatile.unwrap()
    } else {
        w.dice
    }
}

/// Every enemy's first attack, where it has one, can be rolled.
pub open spec fn enemies_dice_ok(es: Seq<Target>) -> bool {
    forall|i: int|
        0 <= i < es.len() ==> ((#[trigger] es[i]).attacks@.len() > 0 ==> es[i].attacks@[0].dice.sides
            >= 1)
}

/// The configuration error an encounter reports, checked before any dice
/// are rolled.
pub open spec fn spec_encounter_error(enc: EncounterSpec, ws: Seq<Weapon>) -> Option<SimError> {
    let fw = first_weapon_index(ws, "longsword".spec_bytes());
    if enc.enemies@.len() == 0 {
        Some(SimError::NoEnemies)
    } else if fw < 0 {
        Some(SimError::WeaponNotFound)
    } else if spec_encounter_weapon_dice(ws[fw]).sides < 1 || !enemies_dice_ok(enc.enemies@) {
        Some(SimError::InvalidDice)
    } else {
        None
    }
}

/// How many enemies still stand.
pub open spec fn count_alive(states: Seq<EnemyState>) -> int
    decreases states.len(),
{
    if states.len() == 0 {
        0
    } else {
        (if states.last().hp > 0 {
            1int
        } else {
            0int
        }) + count_alive(states.drop_last())
    }
}

/// The count of living enemies never exceeds the roster.
pub proof fn lemma_count_alive_bounds(states: Seq<EnemyState>)
    ensures
        0 <= count_alive(states) <= states.len(),
    decreases states.len(),
{
    if states.len() > 0 {
        lemma_count_alive_bounds(states.drop_last());
    }
}

/// Count the enemies that still stand.
fn count_alive_exec(states: &Vec<EnemyState>) -> (r: usize)
    ensures
        r == count_alive(states@),
{
    let mut n: usize = 0;
    proof {
        assert(states@.take(0).len() == 0);
        lemma_count_alive_bounds(states@);
    }
    let mut i: usize = 0;
    while i < states.len()
        invariant
            i <= states@.len(),
            n == count_alive(states@.take(i as int)),
            n <= i,
        decreases states@.len() - i,
    {
        proof {
            let pre = states@.take(i as int + 1);
            assert(pre.drop_last() =~= states@.take(i as int));
            assert(pre.last() == states@[i as int]);
        }
        if states[i].hp > 0 {
            n = n + 1;
        }
        i = i + 1;
    }
    proof {
        assert(states@.take(states@.len() as int) =~= states@);
    }
    n
}

/// Whether any enemy still stands.
fn any_alive_exec(states: &Vec<EnemyState>) -> (r: bool)
    ensures
        r == any_alive(states@),
{
    let mut i: usize = 0;
    while i < states.len()
        invariant
            i <= states@.len(),
            forall|j: int| 0 <= j < i ==> states@[j].hp <= 0,
        decreases states@.len() - i,
    {
        if states[i].hp > 0 {
            return true;
        }
        i = i + 1;
    }
    false
}


/// The mutable part of one enemy as the encounter interpreter sees it.
pub struct EncEnemy {
    pub hp: int,
    pub conds: Seq<ActiveCondition>,
}

/// The mutable state of an encounter between turns.
pub struct EncState {
    pub rounds: int,
    pub health: Health,
    pub actor_conds: Seq<ActiveCondition>,
    pub enemies: Seq<EncEnemy>,
    pub dice: DiceModel,
}

/// One enemy's attack as the interpreter sees it.
pub struct EnemyAttackP {
    pub to_hit: int,
    pub dice: DamageDice,
    pub style: AttackStyle,
    pub cond: Option<ConditionSpec>,
}

/// Everything about an encounter that is fixed before the first round,
/// including the initiative order, itself a function of the seed.
pub struct EncParams {
    pub focus: FocusStrategy,
    pub actor_style: AttackStyle,
    pub attack_bonus: int,
    pub damage_mod: int,
    pub weapon_dice: DamageDice,
    pub mitig: Seq<(bool, bool, bool)>,
    pub eff_ac: Seq<int>,
    pub atk: Seq<Option<EnemyAttackP>>,
    pub actor_mods: SaveModifiers,
    pub enemy_mods: Seq<SaveModifiers>,
    pub order: Seq<InitEntry>,
}

/// Whether any interpreter enemy still stands.
pub open spec fn e_any_alive(es: Seq<EncEnemy>) -> bool {
    exists|i: int| 0 <= i < es.len() && es[i].hp > 0
}

/// How many interpreter enemies still stand.
pub open spec fn e_count_alive(es: Seq<EncEnemy>) -> int
    decreases es.len(),
{
    if es.len() == 0 {
        0
    } else {
        (if es.last().hp > 0 {
            1int
        } else {
            0int
        }) + e_count_alive(es.drop_last())
    }
}

/// The first living interpreter enemy at or after `k`, or -1.
pub open spec fn e_first_alive(es: Seq<EncEnemy>, k: int) -> int
    decreases es.len() - k,
{
    if k >= es.len() {
        -1
    } else if es[k].hp > 0 {
        k
    } else {
        e_first_alive(es, k + 1)
    }
}

/// The living interpreter enemy of least HP among `es[k..]`, ties keeping
/// the earlier index; -1 for none.
pub open spec fn e_lowest_from(es: Seq<EncEnemy>, k: int, best: int) -> int
    decreases es.len() - k,
{
    if k >= es.len() {
        best
    } else {
        e_lowest_from(
            es,
            k + 1,
            if es[k].hp > 0 && (best < 0 || es[k].hp < es[best].hp) {
                k
            } else {
                best
            },
        )
    }
}

/// The original indices of the living interpreter enemies, ascending.
pub open spec fn e_alive_indices(es: Seq<EncEnemy>) -> Seq<int>
    decreases es.len(),
{
    if es.len() == 0 {
        Seq::empty()
    } else {
        let rest = e_alive_indices(es.drop_last());
        if es.last().hp > 0 {
            rest.push(es.len() - 1)
        } else {
            rest
        }
    }
}

/// The die a Random pick rolls over interpreter enemies.
pub open spec fn e_random_sides(es: Seq<EncEnemy>) -> u8 {
    let n = e_alive_indices(es).len();
    if n < 255 {
        n as u8
    } else {
        255
    }
}

/// The index a Random roll selects over interpreter enemies.
pub open spec fn e_random_pick(es: Seq<EncEnemy>, roll: u8) -> int {
    let alive = e_alive_indices(es);
    let j = if roll - 1 < alive.len() - 1 {
        roll - 1
    } else {
        alive.len() - 1
    };
    alive[j]
}

/// The target the focus strategy picks over interpreter enemies.
pub open spec fn e_select(focus: FocusStrategy, es: Seq<EncEnemy>, m: DiceModel) -> Option<int> {
    match focus {
        FocusStrategy::First => {
            let i = e_first_alive(es, 0);
            if i < 0 {
                Option::None
            } else {
                Option::Some(i)
            }
        },
        FocusStrategy::Lowest => {
            let i = e_lowest_from(es, 0, -1);
            if i < 0 {
                Option::None
            } else {
                Option::Some(i)
            }
        },
        FocusStrategy::Random => if e_any_alive(es) {
            Option::Some(e_random_pick(es, model_next(m, 1, e_random_sides(es))))
        } else {
            Option::None
        },
    }
}

/// The dice stream after the selection.
pub open spec fn e_select_dice(focus: FocusStrategy, es: Seq<EncEnemy>, m: DiceModel) -> DiceModel {
    if focus is Random && e_any_alive(es) {
        model_step(m, 1, e_random_sides(es))
    } else {
        m
    }
}

/// A Lowest-focus pick is a living enemy of minimal HP, ties to the lower
/// index: the focus law at the interpreter level.
pub proof fn lemma_e_lowest_minimal(es: Seq<EncEnemy>, k: int, best: int)
    requires
        0 <= k <= es.len(),
        best < 0 ==> forall|j: int| 0 <= j < k ==> es[j].hp <= 0,
        best >= 0 ==> 0 <= best < k && es[best].hp > 0 && forall|j: int|
            0 <= j < k && es[j].hp > 0 ==> (es[best].hp < es[j].hp || (es[best].hp == es[j].hp
                && best <= j)),
    ensures
        ({
            let r = e_lowest_from(es, k, best);
            &&& (r < 0 ==> forall|j: int| 0 <= j < es.len() ==> es[j].hp <= 0)
            &&& (r >= 0 ==> 0 <= r < es.len() && es[r].hp > 0 && forall|j: int|
                0 <= j < es.len() && es[j].hp > 0 ==> (es[r].hp < es[j].hp || (es[r].hp
                    == es[j].hp && r <= j)))
        }),
    decreases es.len() - k,
{
    if k < es.len() {
        if es[k].hp > 0 && (best < 0 || es[k].hp < es[best].hp) {
            lemma_e_lowest_minimal(es, k + 1, k);
        } else {
            lemma_e_lowest_minimal(es, k + 1, best);
        }
    }
}

/// The projection the interpreter reads from the runtime enemy list: each
/// enemy's HP and active conditions.
pub open spec fn project_enemies(states: Seq<EnemyState>) -> Seq<EncEnemy> {
    Seq::new(
        states.len(),
        |k: int| EncEnemy { hp: states[k].hp as int, conds: states[k].conditions@ },
    )
}

/// First-alive agrees between the runtime list and its projection.
pub proof fn lemma_first_alive_agree(states: Seq<EnemyState>, k: int)
    requires
        0 <= k <= states.len(),
    ensures
        spec_first_alive(states, k) == e_first_alive(project_enemies(states), k),
    decreases states.len() - k,
{
    if k < states.len() {
        lemma_first_alive_agree(states, k + 1);
    }
}

/// Lowest-alive agrees between the runtime list and its projection.
pub proof fn lemma_lowest_agree(states: Seq<EnemyState>, k: int, best: int)
    requires
        0 <= k <= states.len(),
        -1 <= best < k,
    ensures
        spec_lowest_from(states, k, best) == e_lowest_from(project_enemies(states), k, best),
    decreases states.len() - k,
{
    if k < states.len() {
        if states[k].hp > 0 && (best < 0 || states[k].hp < states[best].hp) {
            lemma_lowest_agree(states, k + 1, k);
        } else {
            lemma_lowest_agree(states, k + 1, best);
        }
    }
}

/// The alive-index list agrees between the runtime list and its projection.
pub proof fn lemma_alive_indices_agree(states: Seq<EnemyState>)
    ensures
        alive_indices(states) == e_alive_indices(project_enemies(states)),
        any_alive(states) == e_any_alive(project_enemies(states)),
    decreases states.len(),
{
    let es = project_enemies(states);
    if states.len() == 0 {
        assert(alive_indices(states) =~= e_alive_indices(es));
    } else {
        lemma_alive_indices_agree(states.drop_last());
        assert(project_enemies(states.drop_last()) =~= es.drop_last());
        assert(states.last().hp == es.last().hp);
    }
    assert(any_alive(states) == e_any_alive(es)) by {
        if any_alive(states) {
            let i = choose|i: int| 0 <= i < states.len() && states[i].hp > 0;
            assert(es[i].hp > 0);
        }
        if e_any_alive(es) {
            let i = choose|i: int| 0 <= i < es.len() && es[i].hp > 0;
            assert(states[i].hp > 0);
        }
    };
}


/// The living-enemy count agrees between the runtime list and its
/// projection.
pub proof fn lemma_count_alive_agree(states: Seq<EnemyState>)
    ensures
        count_alive(states) == e_count_alive(project_enemies(states)),
    decreases states.len(),
{
    if states.len() > 0 {
        lemma_count_alive_agree(states.drop_last());
        assert(project_enemies(states.drop_last()) =~= project_enemies(states).drop_last());
        assert(states.last().hp == project_enemies(states).last().hp);
    }
}

/// The runtime selection agrees with the interpreter's.
pub proof fn lemma_select_agree(focus: FocusStrategy, states: Seq<EnemyState>, m: DiceModel)
    ensures
        spec_select_target(focus, states, m) == e_select(focus, project_enemies(states), m),
        spec_select_dice(focus, states, m) == e_select_dice(focus, project_enemies(states), m),
{
    match focus {
        FocusStrategy::First => {
            lemma_first_alive_agree(states, 0);
        },
        FocusStrategy::Lowest => {
            lemma_lowest_agree(states, 0, -1);
        },
        FocusStrategy::Random => {
        },
    }
    lemma_alive_indices_agree(states);
}

/// An initiative entry that refers to a real participant.
pub open spec fn entry_wf(e: InitEntry, n: int) -> bool {
    &&& e.kind == 0 || e.kind == 1
    &&& e.kind == 1 ==> e.index < n
}


/// The fixed parameters of an encounter, derived from the configuration,
/// the roster and the weapon table; the actor is the baked-in fighter with
/// the default longsword, held two-handed when it offers versatile dice.
#[verifier::opaque]
pub open spec fn spec_enc_params(cfg: EncounterConfig, enc: EncounterSpec, ws: Seq<Weapon>) -> EncParams {
    let w = ws[first_weapon_index(ws, "longsword".spec_bytes())];
    let amod: int = if w.ranged || w.finesse {
        2
    } else {
        3
    };
    let dtype = spec_weapon_damage_type(w);
    let n = enc.enemies@.len() as int;
    EncParams {
        focus: enc.focus,
        actor_style: if w.ranged {
            AttackStyle::Ranged
        } else {
            AttackStyle::Melee
        },
        attack_bonus: amod + 2,
        damage_mod: amod,
        weapon_dice: spec_encounter_weapon_dice(w),
        mitig: Seq::new(
            n as nat,
            |k: int|
                (
                    parsed_damage_types(enc.enemies@[k].resistances@).contains(dtype),
                    parsed_damage_types(enc.enemies@[k].vulnerabilities@).contains(dtype),
                    parsed_damage_types(enc.enemies@[k].immunities@).contains(dtype),
                ),
        ),
        eff_ac: Seq::new(
            n as nat,
            |k: int| enc.enemies@[k].ac + cover_bonus(enc.enemies@[k].cover),
        ),
        atk: Seq::new(
            n as nat,
            |k: int|
                if enc.enemies@[k].attacks@.len() > 0 {
                    Option::Some(
                        EnemyAttackP {
                            to_hit: enc.enemies@[k].attacks@[0].to_hit as int,
                            dice: enc.enemies@[k].attacks@[0].dice,
                            style: if enc.enemies@[k].attacks@[0].ranged {
                                AttackStyle::Ranged
                            } else {
                                AttackStyle::Melee
                            },
                            cond: enc.enemies@[k].attacks@[0].apply_condition,
                        },
                    )
                } else {
                    Option::None
                },
        ),
        actor_mods: SaveModifiers { str_: 5, dex: 2, con: 4, int_: 0, wis: 1, cha: -1i32 },
        enemy_mods: Seq::new(
            n as nat,
            |k: int|
                SaveModifiers {
                    str_: spec_target_ability_mod(enc.enemies@[k], Ability::Str) as i32,
                    dex: spec_target_ability_mod(enc.enemies@[k], Ability::Dex) as i32,
                    con: spec_target_ability_mod(enc.enemies@[k], Ability::Con) as i32,
                    int_: spec_target_ability_mod(enc.enemies@[k], Ability::Int) as i32,
                    wis: spec_target_ability_mod(enc.enemies@[k], Ability::Wis) as i32,
                    cha: spec_target_ability_mod(enc.enemies@[k], Ability::Cha) as i32,
                },
        ),
        order: spec_enc_order(enc, cfg.seed),
    }
}

/// The initiative entries of the enemies from index `i` on, threading the
/// dice stream one Normal d20 per enemy.
pub open spec fn spec_enc_entry_rolls(enc: EncounterSpec, m: DiceModel, i: int) -> Seq<InitEntry>
    decreases enc.enemies@.len() - i,
{
    if i < 0 || i >= enc.enemies@.len() {
        Seq::empty()
    } else {
        seq![
            InitEntry {
                total: (model_next(m, 1, 20) + spec_target_ability_mod(
                    enc.enemies@[i],
                    Ability::Dex,
                )) as i32,
                roll: model_next(m, 1, 20) as i32,
                kind: 1,
                index: i as usize,
            },
        ] + spec_enc_entry_rolls(enc, model_step(m, 1, 20), i + 1)
    }
}

/// All initiative entries: the actor's (d20 + its +2 Dexterity modifier)
/// first, then one per enemy in roster order.
pub open spec fn spec_enc_entries(enc: EncounterSpec, seed: u64) -> Seq<InitEntry> {
    let m0 = DiceModel::Seeded { seed, taken: Seq::empty() };
    seq![
        InitEntry {
            total: (model_next(m0, 1, 20) + 2) as i32,
            roll: model_next(m0, 1, 20) as i32,
            kind: 0,
            index: 0,
        },
    ] + spec_enc_entry_rolls(enc, model_step(m0, 1, 20), 0)
}

/// The turn order: the rolled entries sorted by initiative precedence.
pub open spec fn spec_enc_order(enc: EncounterSpec, seed: u64) -> Seq<InitEntry> {
    spec_sort_initiative(spec_enc_entries(enc, seed))
}

/// The encounter's state after initiative: everyone fresh, the dice stream
/// one draw per participant in.
#[verifier::opaque]
pub open spec fn spec_enc_init(cfg: EncounterConfig, enc: EncounterSpec) -> EncState {
    let n = enc.enemies@.len();
    EncState {
        rounds: 0,
        health: Health {
            hp: actor_start_hp_enc(cfg) as i32,
            max_hp: actor_start_hp_enc(cfg) as i32,
            state: LifeState::Conscious,
            death: crate::life::DeathSaves { successes: 0, failures: 0 },
        },
        actor_conds: parsed_condition_list(cfg.actor_conditions@),
        enemies: Seq::new(
            n,
            |k: int|
                EncEnemy {
                    hp: enc.enemies@[k].hp as int,
                    conds: Seq::new(
                        enc.enemies@[k].conditions@.len(),
                        |j: int| plain_condition(enc.enemies@[k].conditions@[j]),
                    ),
                },
        ),
        dice: dice_step_n(
            DiceModel::Seeded { seed: cfg.seed, taken: Seq::empty() },
            (n + 1) as nat,
            20,
        ),
    }
}

/// One actor turn of an encounter: death save, start boundary, one attack
/// at the focus-selected enemy when conscious, end boundary.
#[verifier::opaque]
pub open spec fn spec_enc_actor_turn(st: EncState, p: EncParams) -> EncState {
    let h1 = if qualifies_for_death_save(st.health) {
        death_save_transition(st.health, crate::dice::d20_first(st.dice)).0
    } else {
        st.health
    };
    let d1 = if qualifies_for_death_save(st.health) {
        model_step(st.dice, 1, 20)
    } else {
        st.dice
    };
    let ac1 = boundary_conditions(st.actor_conds, TurnBoundary::StartOfTurn, p.actor_mods, d1);
    let d2 = boundary_dice(st.actor_conds, TurnBoundary::StartOfTurn, p.actor_mods, d1);
    let sel = if h1.state is Conscious {
        e_select(p.focus, st.enemies, d2)
    } else {
        Option::None
    };
    let d3 = if h1.state is Conscious {
        e_select_dice(p.focus, st.enemies, d2)
    } else {
        d2
    };
    let hit_part = match sel {
        Option::Some(ti) => {
            let mode = spec_vantage_admode(
                combine_vantage(
                    Vantage::Normal,
                    spec_vantage_from_conditions(ac1, st.enemies[ti].conds, p.actor_style),
                ),
            );
            let kept = d20_kept(d3, mode) as int;
            let d_atk = d20_step(d3, mode);
            let hit = kept == 20 || (kept != 1 && kept + p.attack_bonus >= p.eff_ac[ti]);
            if hit {
                let n = rolled_count(p.weapon_dice.count, kept == 20);
                let raw = dice_sum(d_atk, n, p.weapon_dice.sides) + p.damage_mod;
                let dmg = adjusted_damage(raw, p.mitig[ti].0, p.mitig[ti].1, p.mitig[ti].2);
                (
                    st.enemies.update(
                        ti,
                        EncEnemy {
                            hp: if st.enemies[ti].hp - dmg < 0 {
                                0
                            } else {
                                st.enemies[ti].hp - dmg
                            },
                            conds: st.enemies[ti].conds,
                        },
                    ),
                    dice_step_n(d_atk, n, p.weapon_dice.sides),
                )
            } else {
                (st.enemies, d_atk)
            }
        },
        Option::None => (st.enemies, d3),
    };
    let ac2 = boundary_conditions(ac1, TurnBoundary::EndOfTurn, p.actor_mods, hit_part.1);
    let d5 = boundary_dice(ac1, TurnBoundary::EndOfTurn, p.actor_mods, hit_part.1);
    EncState { health: h1, actor_conds: ac2, enemies: hit_part.0, dice: d5, ..st }
}

/// One enemy turn of an encounter: when the enemy stands, the start
/// boundary on its conditions, one attack at the actor when it has one,
/// the end boundary. A downed enemy's turn does nothing.
#[verifier::opaque]
pub open spec fn spec_enc_enemy_turn(st: EncState, p: EncParams, ei: int) -> EncState {
    if 0 <= ei < st.enemies.len() && st.enemies[ei].hp > 0 {
        let ec1 = boundary_conditions(
            st.enemies[ei].conds,
            TurnBoundary::StartOfTurn,
            p.enemy_mods[ei],
            st.dice,
        );
        let d1 = boundary_dice(
            st.enemies[ei].conds,
            TurnBoundary::StartOfTurn,
            p.enemy_mods[ei],
            st.dice,
        );
        let atk_part = match p.atk[ei] {
            Option::Some(a) => {
                let mode = spec_vantage_admode(
                    combine_vantage(
                        Vantage::Normal,
                        spec_vantage_from_conditions(ec1, st.actor_conds, a.style),
                    ),
                );
                let kept = d20_kept(d1, mode) as int;
                let d_atk = d20_step(d1, mode);
                let hit = kept == 20 || (kept != 1 && kept + a.to_hit >= DEFAULT_ACTOR_AC);
                let n = rolled_count(a.dice.count, kept == 20);
                let dmg = dice_sum(d_atk, n, a.dice.sides);
                let d_dmg = dice_step_n(d_atk, n, a.dice.sides);
                let hp_a = hp_after_damage(st.health.hp as int, dmg);
                let dropped = st.health.hp > 0 && hp_a == 0;
                let h_dmg = Health {
                    hp: hp_a as i32,
                    max_hp: st.health.max_hp,
                    state: if dropped {
                        LifeState::Unconscious { stable: false }
                    } else {
                        st.health.state
                    },
                    death: st.health.death,
                };
                let ac_dmg = if dropped && !has_kind(st.actor_conds, ConditionKind::Prone) {
                    st.actor_conds.push(plain_condition(ConditionKind::Prone))
                } else {
                    st.actor_conds
                };
                let ac_fin = match a.cond {
                    Option::Some(cs) => if application_resisted(cs, p.actor_mods, d_dmg) {
                        ac_dmg
                    } else {
                        ac_dmg.push(active_from_spec(cs))
                    },
                    Option::None => ac_dmg,
                };
                let d_fin = match a.cond {
                    Option::Some(cs) => if cs.save is Some {
                        model_step(d_dmg, 1, 20)
                    } else {
                        d_dmg
                    },
                    Option::None => d_dmg,
                };
                if hit {
                    (h_dmg, ac_fin, d_fin)
                } else {
                    (st.health, st.actor_conds, d_atk)
                }
            },
            Option::None => (st.health, st.actor_conds, d1),
        };
        let ec2 = boundary_conditions(ec1, TurnBoundary::EndOfTurn, p.enemy_mods[ei], atk_part.2);
        let d4 = boundary_dice(ec1, TurnBoundary::EndOfTurn, p.enemy_mods[ei], atk_part.2);
        EncState {
            health: atk_part.0,
            actor_conds: atk_part.1,
            enemies: st.enemies.update(ei, EncEnemy { hp: st.enemies[ei].hp, conds: ec2 }),
            dice: d4,
            ..st
        }
    } else {
        st
    }
}

/// Whether the round's turn sequence stops early: the actor died or the
/// last enemy fell.
pub open spec fn enc_turn_stop(st: EncState) -> bool {
    st.health.state is Dead || !e_any_alive(st.enemies)
}

/// One initiative entry's turn, skipped when the round already stopped.
pub open spec fn spec_enc_turn(st: EncState, p: EncParams, e: InitEntry) -> EncState {
    if enc_turn_stop(st) {
        st
    } else if e.kind == 0 {
        spec_enc_actor_turn(st, p)
    } else {
        spec_enc_enemy_turn(st, p, e.index as int)
    }
}

/// The turns of the initiative entries from position `k` on.
pub open spec fn spec_enc_turns(st: EncState, p: EncParams, k: int) -> EncState
    decreases p.order.len() - k,
{
    if k < 0 || k >= p.order.len() {
        st
    } else {
        spec_enc_turns(spec_enc_turn(st, p, p.order[k]), p, k + 1)
    }
}

/// One encounter round: count it, then run every participant's turn in
/// initiative order.
pub open spec fn spec_enc_round(st: EncState, p: EncParams) -> EncState {
    spec_enc_turns(EncState { rounds: st.rounds + 1, ..st }, p, 0)
}

/// Whether the encounter is over: the round cap reached, the actor dead or
/// at zero, or every enemy down.
pub open spec fn enc_done(st: EncState) -> bool {
    st.rounds >= ENCOUNTER_MAX_ROUNDS || st.health.state is Dead || st.health.hp <= 0
        || !e_any_alive(st.enemies)
}

/// A turn never changes the round counter.
pub proof fn lemma_enc_turn_rounds(st: EncState, p: EncParams, e: InitEntry)
    ensures
        spec_enc_turn(st, p, e).rounds == st.rounds,
{
    reveal(spec_enc_actor_turn);
    reveal(spec_enc_enemy_turn);
}

/// Neither does a whole turn sequence.
pub proof fn lemma_enc_turns_rounds(st: EncState, p: EncParams, k: int)
    ensures
        spec_enc_turns(st, p, k).rounds == st.rounds,
    decreases p.order.len() - k,
{
    if 0 <= k < p.order.len() {
        lemma_enc_turn_rounds(st, p, p.order[k]);
        lemma_enc_turns_rounds(spec_enc_turn(st, p, p.order[k]), p, k + 1);
    }
}

/// Run the encounter to its end; the outcome is a function of the starting
/// state and the fixed parameters.
pub open spec fn spec_enc_run(st: EncState, p: EncParams) -> EncState
    decreases ENCOUNTER_MAX_ROUNDS - st.rounds
        via spec_enc_run_decreases
{
    if enc_done(st) {
        st
    } else {
        spec_enc_run(spec_enc_round(st, p), p)
    }
}

#[via_fn]
proof fn spec_enc_run_decreases(st: EncState, p: EncParams) {
    if !enc_done(st) {
        lemma_enc_turns_rounds(EncState { rounds: st.rounds + 1, ..st }, p, 0);
    }
}

/// Once the round's turn sequence has stopped, the remaining turns change
/// nothing.
pub proof fn lemma_enc_turns_stopped(st: EncState, p: EncParams, k: int)
    requires
        enc_turn_stop(st),
    ensures
        spec_enc_turns(st, p, k) == st,
    decreases p.order.len() - k,
{
    if 0 <= k < p.order.len() {
        lemma_enc_turns_stopped(st, p, k + 1);
    }
}

/// Peeling one turn off a turn sequence.
pub proof fn lemma_enc_turns_unfold(st: EncState, p: EncParams, k: int)
    requires
        0 <= k < p.order.len(),
    ensures
        spec_enc_turns(st, p, k) == spec_enc_turns(spec_enc_turn(st, p, p.order[k]), p, k + 1),
{
}

/// What every successful encounter result satisfies: the round cap held,
/// the remaining-enemy count fits the roster, and the log closes with the
/// matching end record.
pub open spec fn encounter_result_consistent(out: EncounterResult, enc: EncounterSpec) -> bool {
    &&& out.rounds <= ENCOUNTER_MAX_ROUNDS
    &&& out.remaining_enemies <= enc.enemies@.len()
    &&& out.log@.len() >= 2
    &&& (out.log@[0] matches Event::EncounterStart { name, enemies } && name@ == enc.name@
        && enemies == enc.enemies@.len())
    &&& (out.log@.last() matches Event::EncounterEnd { survived, rounds, remaining } && survived
        == out.survived && rounds == out.rounds && remaining == out.remaining_enemies)
}


/// One actor turn of an encounter, exactly as the interpreter describes
/// it: death save, start boundary, one attack at the focus-selected enemy
/// when conscious, end boundary.
#[verifier::loop_isolation(false)]
#[verifier::rlimit(100)]
fn enc_actor_turn(
    encounter: &EncounterSpec,
    actor_health: &mut Health,
    actor_conditions: &mut Vec<ActiveCondition>,
    states: &mut Vec<EnemyState>,
    dice: &mut Dice,
    log: &mut Vec<Event>,
    focus: FocusStrategy,
    actor_style: AttackStyle,
    actor_attack_bonus: i32,
    actor_damage_mod: i32,
    weapon_dice: DamageDice,
    actor_dtype: DamageType,
    actor_mods: &SaveModifiers,
    Ghost(st1): Ghost<EncState>,
    Ghost(p): Ghost<EncParams>,
)
    requires
        st1.health == *old(actor_health),
        st1.actor_conds == old(actor_conditions)@,
        st1.enemies == project_enemies(old(states)@),
        st1.dice == old(dice)@,
        p.focus == focus,
        p.actor_style == actor_style,
        p.attack_bonus == actor_attack_bonus as int,
        p.damage_mod == actor_damage_mod as int,
        p.weapon_dice == weapon_dice,
        p.actor_mods == *actor_mods,
        p.eff_ac.len() == old(states)@.len(),
        p.mitig.len() == old(states)@.len(),
        old(states)@.len() == encounter.enemies@.len(),
        forall|k: int|
            0 <= k < old(states)@.len() ==> p.eff_ac[k] == (#[trigger] encounter.enemies@[k]).ac
                + cover_bonus(encounter.enemies@[k].cover),
        forall|k: int|
            0 <= k < old(states)@.len() ==> p.mitig[k] == (
                (#[trigger] old(states)@[k]).resist@.contains(actor_dtype),
                old(states)@[k].vuln@.contains(actor_dtype),
                old(states)@[k].immune@.contains(actor_dtype),
            ),
        forall|k: int|
            0 <= k < old(states)@.len() ==> -1_000_000 <= (#[trigger] old(states)@[k]).hp
                <= 1_000_000,
        save_modifiers_bounded(*actor_mods),
        death_saves_bounded(old(actor_health).death),
        encounter_bounded(*encounter),
        weapon_dice.sides >= 1,
        -1_000_000 <= actor_attack_bonus <= 1_000_000,
        0 <= actor_damage_mod <= 1_000_000,
        old(actor_health).state is Dead ==> old(actor_health).hp == 0,
    ensures
        *final(actor_health) == spec_enc_actor_turn(st1, p).health,
        final(actor_conditions)@ == spec_enc_actor_turn(st1, p).actor_conds,
        project_enemies(final(states)@) == spec_enc_actor_turn(st1, p).enemies,
        final(dice)@ == spec_enc_actor_turn(st1, p).dice,
        spec_enc_actor_turn(st1, p).rounds == st1.rounds,
        final(states)@.len() == old(states)@.len(),
        forall|k: int|
            0 <= k < final(states)@.len() ==> ((#[trigger] final(states)@[k]).resist
                == old(states)@[k].resist && final(states)@[k].vuln == old(states)@[k].vuln
                && final(states)@[k].immune == old(states)@[k].immune),
        forall|k: int|
            0 <= k < final(states)@.len() ==> -1_000_000 <= (#[trigger] final(states)@[k]).hp
                <= 1_000_000,
        final(actor_health).max_hp == old(actor_health).max_hp,
        final(actor_health).hp == old(actor_health).hp || final(actor_health).hp == 1,
        death_saves_bounded(final(actor_health).death),
        final(actor_health).state is Dead ==> final(actor_health).hp == 0,
        final(log)@.len() >= old(log)@.len(),
        forall|i: int| 0 <= i < old(log)@.len() ==> #[trigger] final(log)@[i] == old(log)@[i],
{
    let ghost lp0 = log@;
    let _ = process_death_save_start_of_turn("Actor", actor_health, dice, log);
    proof {
        crate::events::lemma_prefix_preserves_index(lp0, log@);
    }
    let ghost lp1 = log@;
    process_turn_boundary(
        TurnBoundary::StartOfTurn,
        "Actor",
        actor_conditions,
        actor_mods,
        dice,
        log,
    );
    proof {
        crate::events::lemma_prefix_preserves_index(lp1, log@);
    }
    match actor_health.state {
        LifeState::Dead => {
            log.push(Event::TurnSkipped { name: copy_name("Actor"), dead: true });
        },
        LifeState::Unconscious { .. } => {
            log.push(Event::TurnSkipped { name: copy_name("Actor"), dead: false });
        },
        LifeState::Conscious => {
            let ghost d2 = dice@;
            let sel = select_enemy_target(focus, states, dice);
            proof {
                lemma_select_agree(focus, states@, d2);
            }
            match sel {
                None => {},
                Some(ti) => {
                    let t = &encounter.enemies[ti];
                    let cond_v = crate::conditions::vantage_from_conditions(
                        actor_conditions,
                        &states[ti].conditions,
                        actor_style,
                    );
                    let final_mode = Vantage::Normal.combine(cond_v).to_admode();
                    let eff_ac = t.ac + t.cover.ac_bonus();
                    log.push(
                        Event::Defense {
                            name: copy_name(t.name.as_str()),
                            base_ac: t.ac,
                            cover: t.cover,
                        },
                    );
                    let atk = attack(dice, final_mode, actor_attack_bonus, eff_ac);
                    let hit = atk.hit;
                    let crit = atk.is_crit;
                    log.push(
                        Event::Attack {
                            attacker: copy_name("Actor"),
                            raw_rolls: atk.raw_rolls,
                            roll: atk.roll,
                            total: atk.total,
                            ac: atk.ac,
                            hit: atk.hit,
                            crit: atk.is_crit,
                            nat1: atk.nat1,
                        },
                    );
                    if hit {
                        let ghost pre_dice = dice@;
                        let raw = damage(dice, weapon_dice, actor_damage_mod, crit);
                        proof {
                            lemma_dice_sum_bounds(
                                pre_dice,
                                rolled_count(weapon_dice.count, crit),
                                weapon_dice.sides,
                            );
                            assert(rolled_count(weapon_dice.count, crit) * weapon_dice.sides as int
                                <= 255 * 255) by (nonlinear_arith)
                                requires
                                    0 <= rolled_count(weapon_dice.count, crit) <= 255,
                                    0 <= weapon_dice.sides as int <= 255,
                            ;
                        }
                        let dmg = adjust_damage_by_type(
                            raw,
                            actor_dtype,
                            &states[ti].resist,
                            &states[ti].vuln,
                            &states[ti].immune,
                        );
                        let before = states[ti].hp;
                        states[ti].hp = if states[ti].hp - dmg < 0 {
                            0
                        } else {
                            states[ti].hp - dmg
                        };
                        log.push(
                            Event::DamageRoll {
                                attacker: copy_name("Actor"),
                                dice: weapon_dice,
                                modifier: actor_damage_mod,
                                crit,
                                total: dmg,
                                dtype: actor_dtype,
                            },
                        );
                        log.push(
                            Event::HpChange {
                                name: copy_name(t.name.as_str()),
                                before,
                                after: states[ti].hp,
                            },
                        );
                        if before > 0 && states[ti].hp == 0 {
                            log.push(Event::EnemyDefeated { name: copy_name(t.name.as_str()) });
                        }
                    }
                },
            }
        },
    }
    let ghost lp2 = log@;
    process_turn_boundary(
        TurnBoundary::EndOfTurn,
        "Actor",
        actor_conditions,
        actor_mods,
        dice,
        log,
    );
    proof {
        crate::events::lemma_prefix_preserves_index(lp2, log@);
        let st2 = spec_enc_actor_turn(st1, p);
        assert(st2.rounds == st1.rounds && *actor_health == st2.health && actor_conditions@
            == st2.actor_conds && project_enemies(states@) == st2.enemies && dice@
            == st2.dice) by {
            reveal(spec_enc_actor_turn);
            assert(project_enemies(states@) =~= st2.enemies);
        };
        assert(forall|i: int| 0 <= i < lp0.len() ==> #[trigger] log@[i] == lp0[i]);
    }
}

/// One enemy turn of an encounter, exactly as the interpreter describes
/// it: nothing for a downed enemy; otherwise the start boundary on its
/// conditions, one attack at the actor when it has one, the end boundary.
/// Written for a living actor; the encounter never steps a dead one.
#[verifier::loop_isolation(false)]
#[verifier::rlimit(100)]
fn enc_enemy_turn(
    encounter: &EncounterSpec,
    ei: usize,
    actor_health: &mut Health,
    actor_conditions: &mut Vec<ActiveCondition>,
    states: &mut Vec<EnemyState>,
    dice: &mut Dice,
    log: &mut Vec<Event>,
    actor_mods: &SaveModifiers,
    enemy_mods: &Vec<SaveModifiers>,
    Ghost(st1): Ghost<EncState>,
    Ghost(p): Ghost<EncParams>,
)
    requires
        st1.health == *old(actor_health),
        st1.actor_conds == old(actor_conditions)@,
        st1.enemies == project_enemies(old(states)@),
        st1.dice == old(dice)@,
        p.actor_mods == *actor_mods,
        p.atk.len() == old(states)@.len(),
        p.enemy_mods.len() == old(states)@.len(),
        enemy_mods@.len() == old(states)@.len(),
        old(states)@.len() == encounter.enemies@.len(),
        ei < old(states)@.len(),
        forall|k: int|
            0 <= k < old(states)@.len() ==> p.enemy_mods[k] == #[trigger] enemy_mods@[k],
        forall|k: int|
            0 <= k < old(states)@.len() ==> save_modifiers_bounded(#[trigger] enemy_mods@[k]),
        forall|k: int|
            0 <= k < old(states)@.len() ==> p.atk[k] == (
                if (#[trigger] encounter.enemies@[k]).attacks@.len() > 0 {
                    Option::Some(
                        EnemyAttackP {
                            to_hit: encounter.enemies@[k].attacks@[0].to_hit as int,
                            dice: encounter.enemies@[k].attacks@[0].dice,
                            style: if encounter.enemies@[k].attacks@[0].ranged {
                                AttackStyle::Ranged
                            } else {
                                AttackStyle::Melee
                            },
                            cond: encounter.enemies@[k].attacks@[0].apply_condition,
                        },
                    )
                } else {
                    Option::None
                }
            ),
        forall|k: int|
            0 <= k < encounter.enemies@.len() ==> ((#[trigger] encounter.enemies@[k]).attacks@.len()
                > 0 ==> encounter.enemies@[k].attacks@[0].dice.sides >= 1),
        save_modifiers_bounded(*actor_mods),
        death_saves_bounded(old(actor_health).death),
        encounter_bounded(*encounter),
        !(old(actor_health).state is Dead),
        -1_000_000 <= old(actor_health).hp <= 1_000_000,
        -1_000_000 <= old(actor_health).max_hp <= 1_000_000,
    ensures
        *final(actor_health) == spec_enc_enemy_turn(st1, p, ei as int).health,
        final(actor_conditions)@ == spec_enc_enemy_turn(st1, p, ei as int).actor_conds,
        project_enemies(final(states)@) == spec_enc_enemy_turn(st1, p, ei as int).enemies,
        final(dice)@ == spec_enc_enemy_turn(st1, p, ei as int).dice,
        spec_enc_enemy_turn(st1, p, ei as int).rounds == st1.rounds,
        final(states)@.len() == old(states)@.len(),
        forall|k: int|
            0 <= k < final(states)@.len() ==> ((#[trigger] final(states)@[k]).resist
                == old(states)@[k].resist && final(states)@[k].vuln == old(states)@[k].vuln
                && final(states)@[k].immune == old(states)@[k].immune && final(states)@[k].hp
                == old(states)@[k].hp),
        final(actor_health).max_hp == old(actor_health).max_hp,
        (final(actor_health).hp >= 0 || final(actor_health).hp == old(actor_health).hp),
        (final(actor_health).hp <= old(actor_health).hp || final(actor_health).hp == 0),
        death_saves_bounded(final(actor_health).death),
        !(final(actor_health).state is Dead),
        final(log)@.len() >= old(log)@.len(),
        forall|i: int| 0 <= i < old(log)@.len() ==> #[trigger] final(log)@[i] == old(log)@[i],
{
    let ghost lp3 = log@;
    if states[ei].hp > 0 {
        let t = &encounter.enemies[ei];
        process_turn_boundary(
            TurnBoundary::StartOfTurn,
            t.name.as_str(),
            &mut states[ei].conditions,
            &enemy_mods[ei],
            dice,
            log,
        );
        proof {
            crate::events::lemma_prefix_preserves_index(lp3, log@);
        }
        if t.attacks.len() > 0 {
            let a_to_hit = t.attacks[0].to_hit;
            let a_dice = t.attacks[0].dice;
            let a_ranged = t.attacks[0].ranged;
            let a_dtype = match t.attacks[0].damage_type {
                Some(d) => d,
                None => DamageType::Slashing,
            };
            let a_cond = t.attacks[0].apply_condition;
            let style = if a_ranged {
                AttackStyle::Ranged
            } else {
                AttackStyle::Melee
            };
            let cond_v = crate::conditions::vantage_from_conditions(
                &states[ei].conditions,
                actor_conditions,
                style,
            );
            let final_mode = Vantage::Normal.combine(cond_v).to_admode();
            log.push(
                Event::Defense {
                    name: copy_name("Actor"),
                    base_ac: DEFAULT_ACTOR_AC,
                    cover: Cover::Open,
                },
            );
            let atk = attack(dice, final_mode, a_to_hit, DEFAULT_ACTOR_AC);
            let hit = atk.hit;
            let crit = atk.is_crit;
            log.push(
                Event::Attack {
                    attacker: copy_name(t.name.as_str()),
                    raw_rolls: atk.raw_rolls,
                    roll: atk.roll,
                    total: atk.total,
                    ac: atk.ac,
                    hit: atk.hit,
                    crit: atk.is_crit,
                    nat1: atk.nat1,
                },
            );
            if hit {
                let ghost pre_dice = dice@;
                let dmg = damage(dice, a_dice, 0, crit);
                proof {
                    lemma_dice_sum_bounds(pre_dice, rolled_count(a_dice.count, crit), a_dice.sides);
                    assert(rolled_count(a_dice.count, crit) * a_dice.sides as int <= 255 * 255)
                        by (nonlinear_arith)
                        requires
                            0 <= rolled_count(a_dice.count, crit) <= 255,
                            0 <= a_dice.sides as int <= 255,
                    ;
                }
                log.push(
                    Event::DamageRoll {
                        attacker: copy_name(t.name.as_str()),
                        dice: a_dice,
                        modifier: 0,
                        crit,
                        total: dmg,
                        dtype: a_dtype,
                    },
                );
                let ghost lp4 = log@;
                let _ = apply_damage("Actor", actor_health, actor_conditions, dmg, log);
                proof {
                    crate::events::lemma_prefix_preserves_index(lp4, log@);
                }
                match a_cond {
                    Some(spec) => {
                        let ghost lp5 = log@;
                        maybe_apply_on_hit_condition(
                            "Actor",
                            actor_conditions,
                            &spec,
                            actor_mods,
                            dice,
                            log,
                        );
                        proof {
                            crate::events::lemma_prefix_preserves_index(lp5, log@);
                        }
                    },
                    None => {},
                }
            }
        }
        let ghost lp6 = log@;
        process_turn_boundary(
            TurnBoundary::EndOfTurn,
            t.name.as_str(),
            &mut states[ei].conditions,
            &enemy_mods[ei],
            dice,
            log,
        );
        proof {
            crate::events::lemma_prefix_preserves_index(lp6, log@);
        }
    }
    proof {
        let st2 = spec_enc_enemy_turn(st1, p, ei as int);
        assert(st2.rounds == st1.rounds && *actor_health == st2.health && actor_conditions@
            == st2.actor_conds && project_enemies(states@) == st2.enemies && dice@
            == st2.dice) by {
            reveal(spec_enc_enemy_turn);
            assert(project_enemies(states@) =~= st2.enemies);
        };
        assert(forall|i: int| 0 <= i < lp3.len() ==> #[trigger] log@[i] == lp3[i]);
    }
}

/// Simulate a full 1-versus-N encounter: every participant rolls
/// initiative once and the resulting order (total, then raw roll, then the
/// actor, then index) stands for every round; the actor picks its target by
/// the encounter's focus strategy, re-evaluated every turn. Configuration
/// errors are reported before any dice are rolled.
#[verifier::loop_isolation(false)]
#[verifier::rlimit(100)]
pub fn simulate_encounter(
    cfg: &EncounterConfig,
    encounter: &EncounterSpec,
    weapons: &Vec<Weapon>,
) -> (r: Result<EncounterResult, SimError>)
    requires
        encounter_bounded(*encounter),
        encounter_config_bounded(*cfg),
    ensures
        (r is Err) == (spec_encounter_error(*encounter, weapons@) is Some),
        spec_encounter_error(*encounter, weapons@) matches Some(e) ==> r == Err::<
            EncounterResult,
            SimError,
        >(e),
        r matches Ok(out) ==> encounter_result_consistent(out, *encounter),
        r matches Ok(out) ==> ((actor_start_hp_enc(*cfg) > 0 && exists|j: int|
            0 <= j < encounter.enemies@.len() && (#[trigger] encounter.enemies@[j]).hp > 0)
            ==> out.rounds >= 1),
        r matches Ok(out) ==> ({
            let fin = spec_enc_run(
                spec_enc_init(*cfg, *encounter),
                spec_enc_params(*cfg, *encounter, weapons@),
            );
            &&& out.rounds == fin.rounds
            &&& out.survived == (fin.health.hp > 0 && !(fin.health.state is Dead))
            &&& out.remaining_enemies == e_count_alive(fin.enemies)
        }),
{
    proof {
        lemma_first_weapon_index(weapons@, "longsword".spec_bytes());
    }
    let n_enemies = encounter.enemies.len();
    if n_enemies == 0 {
        return Err(SimError::NoEnemies);
    }
    let wi = match find_weapon(weapons, "longsword") {
        Some(i) => i,
        None => {
            proof {
                lemma_no_weapon_match(weapons@, "longsword".spec_bytes());
            }
            return Err(SimError::WeaponNotFound);
        },
    };
    proof {
        lemma_found_weapon_is_first(weapons@, "longsword".spec_bytes(), wi as int);
    }
    let weapon_dice = match weapons[wi].versatile {
        Some(d) => d,
        None => weapons[wi].dice,
    };
    if weapon_dice.sides < 1 {
        return Err(SimError::InvalidDice);
    }
    let mut i: usize = 0;
    while i < n_enemies
        invariant
            i <= n_enemies,
            forall|j: int|
                0 <= j < i ==> ((#[trigger] encounter.enemies@[j]).attacks@.len() > 0
                    ==> encounter.enemies@[j].attacks@[0].dice.sides >= 1),
        decreases n_enemies - i,
    {
        if encounter.enemies[i].attacks.len() > 0 && encounter.enemies[i].attacks[0].dice.sides
            < 1 {
            return Err(SimError::InvalidDice);
        }
        i = i + 1;
    }

    let ghost p = spec_enc_params(*cfg, *encounter, weapons@);
    let ghost st0 = spec_enc_init(*cfg, *encounter);
    let ghost fin = spec_enc_run(st0, p);

    let actor = sample_fighter();
    let actor_hp0 = match cfg.actor_hp {
        Some(x) => x,
        None => DEFAULT_ACTOR_HP,
    };
    let mut actor_health = Health::new(actor_hp0);
    let actor_ability = if weapons[wi].ranged || weapons[wi].finesse {
        Ability::Dex
    } else {
        Ability::Str
    };
    let actor_style = if weapons[wi].ranged {
        AttackStyle::Ranged
    } else {
        AttackStyle::Melee
    };
    let actor_attack_bonus = actor.attack_bonus(actor_ability, true);
    let actor_damage_mod = actor.damage_mod(actor_ability);
    let wn = weapons[wi].name.as_str();
    proof {
        assert(wn.spec_bytes() == chars_bytes(weapons@[wi as int].name@));
    }
    let actor_dtype = match weapons[wi].damage_type {
        Some(d) => d,
        None => match preset_damage_type(wn) {
            Some(d) => d,
            None => DamageType::Slashing,
        },
    };
    let actor_mods = actor_save_modifiers(&actor);

    let mut log: Vec<Event> = Vec::new();
    log.push(
        Event::EncounterStart { name: copy_name(encounter.name.as_str()), enemies: n_enemies },
    );
    let ghost start_event = log@[0];
    proof {
        assert(start_event matches Event::EncounterStart { name, enemies } && name@
            == encounter.name@ && enemies == encounter.enemies@.len());
    }

    let mut actor_conditions = parse_condition_list(&cfg.actor_conditions);
    let mut i: usize = 0;
    while i < actor_conditions.len()
        invariant
            i <= actor_conditions@.len(),
            actor_conditions@ == parsed_condition_list(cfg.actor_conditions@),
            log@.len() == 1 + i,
            log@[0] == start_event,
        decreases actor_conditions@.len() - i,
    {
        log.push(
            Event::ConditionStart { name: copy_name("Actor"), kind: actor_conditions[i].kind },
        );
        i = i + 1;
    }

    let mut states: Vec<EnemyState> = Vec::new();
    let mut enemy_mods: Vec<SaveModifiers> = Vec::new();
    let mut i: usize = 0;
    while i < n_enemies
        invariant
            i <= n_enemies,
            states@.len() == i,
            enemy_mods@.len() == i,
            log@.len() >= 1,
            log@[0] == start_event,
            forall|k: int|
                0 <= k < i ==> -1_000_000 <= (#[trigger] states@[k]).hp <= 1_000_000,
            forall|k: int|
                0 <= k < i ==> (#[trigger] states@[k]).hp == encounter.enemies@[k].hp,
            forall|k: int|
                0 <= k < i ==> (#[trigger] states@[k]).conditions@ == Seq::new(
                    encounter.enemies@[k].conditions@.len(),
                    |j: int| plain_condition(encounter.enemies@[k].conditions@[j]),
                ),
            forall|k: int|
                0 <= k < i ==> ((#[trigger] states@[k]).resist@ == parsed_damage_types(
                    encounter.enemies@[k].resistances@,
                ) && states@[k].vuln@ == parsed_damage_types(
                    encounter.enemies@[k].vulnerabilities@,
                ) && states@[k].immune@ == parsed_damage_types(
                    encounter.enemies@[k].immunities@,
                )),
            forall|k: int|
                0 <= k < i ==> save_modifiers_bounded(#[trigger] enemy_mods@[k]),
            forall|k: int| 0 <= k < i ==> #[trigger] enemy_mods@[k] == p.enemy_mods[k],
        decreases n_enemies - i,
    {
        let t = &encounter.enemies[i];
        let mut conds: Vec<ActiveCondition> = Vec::new();
        proof {
            assert(conds@ =~= Seq::new(0, |j: int| plain_condition(t.conditions@[j])));
        }
        let mut j: usize = 0;
        while j < t.conditions.len()
            invariant
                j <= t.conditions@.len(),
                log@.len() >= 1,
                log@[0] == start_event,
                conds@ == Seq::new(j as nat, |jj: int| plain_condition(t.conditions@[jj])),
            decreases t.conditions@.len() - j,
        {
            conds.push(crate::conditions::make_active_condition(t.conditions[j]));
            proof {
                assert(conds@ =~= Seq::new(
                    (j + 1) as nat,
                    |jj: int| plain_condition(t.conditions@[jj]),
                ));
            }
            log.push(
                Event::ConditionStart { name: copy_name(t.name.as_str()), kind: t.conditions[j] },
            );
            j = j + 1;
        }
        states.push(
            EnemyState {
                hp: t.hp,
                resist: collect_damage_types(&t.resistances),
                vuln: collect_damage_types(&t.vulnerabilities),
                immune: collect_damage_types(&t.immunities),
                conditions: conds,
            },
        );
        let mods_i = t.save_modifiers();
        proof {
            assert(mods_i == p.enemy_mods[i as int]) by {
                reveal(spec_enc_params);
                assert(mods_i.str_ as int == spec_target_ability_mod(*t, Ability::Str));
                assert(mods_i.dex as int == spec_target_ability_mod(*t, Ability::Dex));
                assert(mods_i.con as int == spec_target_ability_mod(*t, Ability::Con));
                assert(mods_i.int_ as int == spec_target_ability_mod(*t, Ability::Int));
                assert(mods_i.wis as int == spec_target_ability_mod(*t, Ability::Wis));
                assert(mods_i.cha as int == spec_target_ability_mod(*t, Ability::Cha));
            };
        }
        enemy_mods.push(mods_i);
        i = i + 1;
    }

    let mut dice = Dice::from_seed(cfg.seed);
    let ghost m0 = DiceModel::Seeded { seed: cfg.seed, taken: Seq::empty() };
    let mut entries: Vec<InitEntry> = Vec::new();
    let actor_roll = dice.d20(AdMode::Normal) as i32;
    let actor_total = actor_roll + actor.ability_mod(Ability::Dex);
    entries.push(InitEntry { total: actor_total, roll: actor_roll, kind: 0, index: 0 });
    log.push(Event::InitiativeRoll { name: copy_name("Actor"), roll: actor_roll, total: actor_total });
    proof {
        assert(ability_modifier(14) == 2);
        crate::rules::lemma_dice_sum_snoc(m0, 0, 20);
        assert(dice@ == dice_step_n(m0, 1, 20));
        assert(entries@ =~= seq![spec_enc_entries(*encounter, cfg.seed)[0]]);
        assert(spec_enc_entries(*encounter, cfg.seed) =~= entries@ + spec_enc_entry_rolls(
            *encounter,
            dice@,
            0,
        ));
    }
    let mut i: usize = 0;
    while i < n_enemies
        invariant
            i <= n_enemies,
            log@.len() >= 2,
            log@[0] == start_event,
            entries@.len() == 1 + i,
            dice@ == dice_step_n(m0, (i + 1) as nat, 20),
            spec_enc_entries(*encounter, cfg.seed) == entries@ + spec_enc_entry_rolls(
                *encounter,
                dice@,
                i as int,
            ),
            forall|k: int|
                0 <= k < entries@.len() ==> entry_wf(#[trigger] entries@[k], n_enemies as int),
        decreases n_enemies - i,
    {
        let ghost d_pre = dice@;
        let roll = dice.d20(AdMode::Normal) as i32;
        let total = roll + encounter.enemies[i].dexterity_mod();
        entries.push(InitEntry { total, roll, kind: 1, index: i });
        proof {
            assert(-1_000_100 <= spec_target_ability_mod(encounter.enemies@[i as int], Ability::Dex)
                <= 1_000_100);
            assert(spec_enc_entry_rolls(*encounter, d_pre, i as int) == seq![
                InitEntry {
                    total: (model_next(d_pre, 1, 20) + spec_target_ability_mod(
                        encounter.enemies@[i as int],
                        Ability::Dex,
                    )) as i32,
                    roll: model_next(d_pre, 1, 20) as i32,
                    kind: 1,
                    index: i as usize,
                },
            ] + spec_enc_entry_rolls(*encounter, model_step(d_pre, 1, 20), i as int + 1));
            assert(entries@ + spec_enc_entry_rolls(*encounter, dice@, i as int + 1)
                =~= entries@.drop_last() + spec_enc_entry_rolls(*encounter, d_pre, i as int));
            crate::rules::lemma_dice_sum_snoc(m0, (i + 1) as nat, 20);
        }
        log.push(
            Event::InitiativeRoll {
                name: copy_name(encounter.enemies[i].name.as_str()),
                roll,
                total,
            },
        );
        i = i + 1;
    }
    proof {
        assert(spec_enc_entries(*encounter, cfg.seed) =~= entries@);
    }
    let order = sort_initiative(entries);
    proof {
        assert(order@ == spec_enc_order(*encounter, cfg.seed));
        assert(order@ == p.order) by {
            reveal(spec_enc_params);
        };
        broadcast use vstd::seq_lib::group_to_multiset_ensures;
        assert forall|k: int| 0 <= k < order@.len() implies entry_wf(
            #[trigger] order@[k],
            n_enemies as int,
        ) by {
            assert(order@.contains(order@[k]));
            assert(order@.to_multiset().count(order@[k]) > 0);
        }
    }

    proof {
        assert(p.focus == encounter.focus && p.actor_style == actor_style && p.attack_bonus
            == actor_attack_bonus as int && p.damage_mod == actor_damage_mod as int
            && p.weapon_dice == weapon_dice && p.actor_mods == actor_mods && 0 <= actor_damage_mod
            <= 5 && -1_000_000 <= actor_attack_bonus <= 1_000_000) by {
            reveal(spec_enc_params);
            assert(ability_modifier(16) == 3);
            assert(ability_modifier(14) == 2);
            let profs = seq![Ability::Str, Ability::Con];
            assert(actor.save_proficiencies@ == profs);
            assert(profs.contains(Ability::Str)) by {
                assert(profs[0] == Ability::Str);
            };
            assert(profs.contains(Ability::Con)) by {
                assert(profs[1] == Ability::Con);
            };
            assert forall|a: Ability| a != Ability::Str && a != Ability::Con
                implies !profs.contains(a) by {
                assert(forall|j: int| 0 <= j < profs.len() ==> #[trigger] profs[j] == Ability::Str
                    || profs[j] == Ability::Con);
            }
            assert(actor_mods.str_ as int == actor.spec_save_mod(Ability::Str));
            assert(actor_mods.dex as int == actor.spec_save_mod(Ability::Dex));
            assert(actor_mods.con as int == actor.spec_save_mod(Ability::Con));
            assert(actor_mods.int_ as int == actor.spec_save_mod(Ability::Int));
            assert(actor_mods.wis as int == actor.spec_save_mod(Ability::Wis));
            assert(actor_mods.cha as int == actor.spec_save_mod(Ability::Cha));
            assert(ability_modifier(10) == 0 && ability_modifier(12) == 1 && ability_modifier(8)
                == -1);
        };
        assert(actor_dtype == spec_weapon_damage_type(weapons@[wi as int]));
        assert(p.mitig.len() == n_enemies && p.eff_ac.len() == n_enemies && p.atk.len()
            == n_enemies && p.enemy_mods.len() == n_enemies) by {
            reveal(spec_enc_params);
        };
        assert forall|k: int| 0 <= k < n_enemies implies #[trigger] p.mitig[k] == (
            states@[k].resist@.contains(actor_dtype),
            states@[k].vuln@.contains(actor_dtype),
            states@[k].immune@.contains(actor_dtype),
        ) by {
            reveal(spec_enc_params);
        }
        assert forall|k: int| 0 <= k < n_enemies implies #[trigger] p.eff_ac[k]
            == encounter.enemies@[k].ac + cover_bonus(encounter.enemies@[k].cover) by {
            reveal(spec_enc_params);
        }
        assert forall|k: int| 0 <= k < n_enemies implies #[trigger] p.atk[k] == (
            if encounter.enemies@[k].attacks@.len() > 0 {
                Option::Some(
                    EnemyAttackP {
                        to_hit: encounter.enemies@[k].attacks@[0].to_hit as int,
                        dice: encounter.enemies@[k].attacks@[0].dice,
                        style: if encounter.enemies@[k].attacks@[0].ranged {
                            AttackStyle::Ranged
                        } else {
                            AttackStyle::Melee
                        },
                        cond: encounter.enemies@[k].attacks@[0].apply_condition,
                    },
                )
            } else {
                Option::None
            }
        ) by {
            reveal(spec_enc_params);
        }
        assert(st0.rounds == 0 && st0.health == actor_health && st0.actor_conds
            == actor_conditions@ && st0.enemies == project_enemies(states@) && st0.dice
            == dice@) by {
            reveal(spec_enc_init);
            assert(project_enemies(states@) =~= spec_enc_init(*cfg, *encounter).enemies);
        };
    }

    let mut rounds: u32 = 0;
    while rounds < ENCOUNTER_MAX_ROUNDS && !matches!(actor_health.state, LifeState::Dead)
        && actor_health.hp > 0 && any_alive_exec(&states)
        invariant
            rounds <= ENCOUNTER_MAX_ROUNDS,
            actor_health.max_hp == actor_hp0,
            (if actor_hp0 <= 0 {
                actor_hp0 as int
            } else {
                0
            }) <= actor_health.hp <= (if actor_hp0 >= 1 {
                actor_hp0 as int
            } else {
                1
            }),
            death_saves_bounded(actor_health.death),
            actor_health.state is Dead ==> actor_health.hp == 0,
            states@.len() == n_enemies,
            forall|k: int|
                0 <= k < n_enemies ==> -1_000_000 <= (#[trigger] states@[k]).hp <= 1_000_000,
            forall|k: int|
                0 <= k < n_enemies ==> ((#[trigger] states@[k]).resist@ == parsed_damage_types(
                    encounter.enemies@[k].resistances@,
                ) && states@[k].vuln@ == parsed_damage_types(
                    encounter.enemies@[k].vulnerabilities@,
                ) && states@[k].immune@ == parsed_damage_types(
                    encounter.enemies@[k].immunities@,
                )),
            rounds == 0 ==> actor_health.hp == actor_hp0 && actor_health.state
                is Conscious && forall|k: int|
                0 <= k < n_enemies ==> (#[trigger] states@[k]).hp == encounter.enemies@[k].hp,
            log@.len() >= 2,
            log@[0] == start_event,
            spec_enc_run(
                EncState {
                    rounds: rounds as int,
                    health: actor_health,
                    actor_conds: actor_conditions@,
                    enemies: project_enemies(states@),
                    dice: dice@,
                },
                p,
            ) == fin,
        decreases ENCOUNTER_MAX_ROUNDS - rounds,
    {
        let ghost st_pre = EncState {
            rounds: rounds as int,
            health: actor_health,
            actor_conds: actor_conditions@,
            enemies: project_enemies(states@),
            dice: dice@,
        };
        proof {
            lemma_alive_indices_agree(states@);
            assert(!enc_done(st_pre));
        }
        rounds = rounds + 1;
        log.push(Event::RoundStart { round: rounds });
        let ghost st_rs = EncState { rounds: st_pre.rounds + 1, ..st_pre };

        let mut oi: usize = 0;
        while oi < order.len() && !matches!(actor_health.state, LifeState::Dead)
            && any_alive_exec(&states)
            invariant
                oi <= order@.len(),
                actor_health.max_hp == actor_hp0,
                (if actor_hp0 <= 0 {
                    actor_hp0 as int
                } else {
                    0
                }) <= actor_health.hp <= (if actor_hp0 >= 1 {
                    actor_hp0 as int
                } else {
                    1
                }),
                death_saves_bounded(actor_health.death),
                actor_health.state is Dead ==> actor_health.hp == 0,
                states@.len() == n_enemies,
                forall|k: int|
                    0 <= k < n_enemies ==> -1_000_000 <= (#[trigger] states@[k]).hp <= 1_000_000,
                forall|k: int|
                    0 <= k < n_enemies ==> ((#[trigger] states@[k]).resist@ == parsed_damage_types(
                        encounter.enemies@[k].resistances@,
                    ) && states@[k].vuln@ == parsed_damage_types(
                        encounter.enemies@[k].vulnerabilities@,
                    ) && states@[k].immune@ == parsed_damage_types(
                        encounter.enemies@[k].immunities@,
                    )),
                log@.len() >= 2,
                log@[0] == start_event,
                spec_enc_turns(st_rs, p, 0) == spec_enc_turns(
                    EncState {
                        rounds: rounds as int,
                        health: actor_health,
                        actor_conds: actor_conditions@,
                        enemies: project_enemies(states@),
                        dice: dice@,
                    },
                    p,
                    oi as int,
                ),
            decreases order@.len() - oi,
        {
            let ghost st_cur = EncState {
                rounds: rounds as int,
                health: actor_health,
                actor_conds: actor_conditions@,
                enemies: project_enemies(states@),
                dice: dice@,
            };
            proof {
                lemma_alive_indices_agree(states@);
                assert(!enc_turn_stop(st_cur));
            }
            let entry = order[oi];
            if entry.kind == 0 {
                enc_actor_turn(
                    encounter,
                    &mut actor_health,
                    &mut actor_conditions,
                    &mut states,
                    &mut dice,
                    &mut log,
                    encounter.focus,
                    actor_style,
                    actor_attack_bonus,
                    actor_damage_mod,
                    weapon_dice,
                    actor_dtype,
                    &actor_mods,
                    Ghost(st_cur),
                    Ghost(p),
                );
                proof {
                    let st_next = EncState {
                        rounds: rounds as int,
                        health: actor_health,
                        actor_conds: actor_conditions@,
                        enemies: project_enemies(states@),
                        dice: dice@,
                    };
                    assert(st_next == spec_enc_turn(st_cur, p, order@[oi as int]));
                    lemma_enc_turns_unfold(st_cur, p, oi as int);
                }
            } else {
                let ei = entry.index;
                proof {
                    assert(entry_wf(order@[oi as int], n_enemies as int));
                }
                enc_enemy_turn(
                    encounter,
                    ei,
                    &mut actor_health,
                    &mut actor_conditions,
                    &mut states,
                    &mut dice,
                    &mut log,
                    &actor_mods,
                    &enemy_mods,
                    Ghost(st_cur),
                    Ghost(p),
                );
                proof {
                    let st_next = EncState {
                        rounds: rounds as int,
                        health: actor_health,
                        actor_conds: actor_conditions@,
                        enemies: project_enemies(states@),
                        dice: dice@,
                    };
                    assert(st_next == spec_enc_turn(st_cur, p, order@[oi as int]));
                    lemma_enc_turns_unfold(st_cur, p, oi as int);
                }
            }
            oi = oi + 1;
        }
        proof {
            let st_after = EncState {
                rounds: rounds as int,
                health: actor_health,
                actor_conds: actor_conditions@,
                enemies: project_enemies(states@),
                dice: dice@,
            };
            if oi < order@.len() {
                lemma_alive_indices_agree(states@);
                assert(enc_turn_stop(st_after));
                lemma_enc_turns_stopped(st_after, p, oi as int);
            }
            assert(st_after == spec_enc_round(st_pre, p));
            assert(spec_enc_run(st_pre, p) == spec_enc_run(st_after, p));
        }
    }

    proof {
        if rounds == 0 && actor_hp0 > 0 {
            assert(!any_alive(states@));
            assert forall|j: int|
                0 <= j < encounter.enemies@.len() implies !((#[trigger] encounter.enemies@[j]).hp
                > 0) by {
                assert(states@[j].hp == encounter.enemies@[j].hp);
            }
        }
    }
    proof {
        let cur = EncState {
            rounds: rounds as int,
            health: actor_health,
            actor_conds: actor_conditions@,
            enemies: project_enemies(states@),
            dice: dice@,
        };
        lemma_alive_indices_agree(states@);
        assert(enc_done(cur));
        assert(cur == fin);
        lemma_count_alive_agree(states@);
    }
    let remaining = count_alive_exec(&states);
    proof {
        lemma_count_alive_bounds(states@);
    }
    let survived = actor_health.hp > 0 && !matches!(actor_health.state, LifeState::Dead);
    let remaining_enemies = remaining as u32;
    log.push(Event::EncounterEnd { survived, rounds, remaining: remaining_enemies });
    Ok(EncounterResult { survived, rounds, remaining_enemies, log })
}

} // verus!

