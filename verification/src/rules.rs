//! Rules primitives: ability modifiers, d20 checks, attack resolution,
//! damage dice and damage-type mitigation.

use vstd::prelude::*;

verus! {

use crate::dice::{
    AdMode, Dice, DiceModel, d20_kept, d20_raw_rolls, d20_step, model_next, model_step,
};
use crate::text::{bytes_eq_ignore_case, chars_bytes, eq_ignore_case};
use vstd::string::StringSliceAdditionalSpecFns;

/// Ability modifier as mathematics: floor of (score - 10) / 2.
pub open spec fn ability_modifier(score: int) -> int {
    (score - 10) / 2
}

/// Ability modifier: floor((score - 10) / 2), rounding toward negative
/// infinity also for scores below 10 (8 and 9 both give -1).
pub fn ability_mod(score: i32) -> (r: i32)
    ensures
        r == ability_modifier(score as int),
{
    let diff: i64 = score as i64 - 10;
    let q: i64 = if diff >= 0 {
        diff / 2
    } else {
        -((-diff + 1) / 2)
    };
    q as i32
}

/// The thirteen damage types of the rules, a closed set.
#[derive(Copy, Clone, Debug, PartialEq, Eq, Structural)]
pub enum DamageType {
    Bludgeoning,
    Piercing,
    Slashing,
    Fire,
    Cold,
    Lightning,
    Acid,
    Poison,
    Psychic,
    Radiant,
    Necrotic,
    Thunder,
    Force,
}

/// Damage adjusted for the defender's damage-type sets: immunity wins and
/// zeroes the damage; resistance and vulnerability together cancel out;
/// resistance alone halves (rounding down); vulnerability alone doubles.
pub open spec fn adjusted_damage(base: int, resistant: bool, vulnerable: bool, immune: bool) -> int {
    if immune {
        0
    } else if resistant && vulnerable {
        base
    } else if resistant {
        base / 2
    } else if vulnerable {
        2 * base
    } else {
        base
    }
}

/// Whether a list of damage types contains the given one.
pub fn contains_damage_type(v: &Vec<DamageType>, d: DamageType) -> (r: bool)
    ensures
        r == v@.contains(d),
{
    let mut i: usize = 0;
    while i < v.len()
        invariant
            i <= v@.len(),
            forall|j: int| 0 <= j < i ==> v@[j] != d,
        decreases v@.len() - i,
    {
        if v[i] == d {
            return true;
        }
        i = i + 1;
    }
    false
}

/// Apply the defender's resistance, vulnerability and immunity sets to a base
/// damage amount. Immune: always 0. Resistant and vulnerable together: base
/// unchanged. Resistant only: floor(base / 2). Vulnerable only: base * 2.
pub fn adjust_damage_by_type(
    base: i32,
    dtype: DamageType,
    resist: &Vec<DamageType>,
    vuln: &Vec<DamageType>,
    immune: &Vec<DamageType>,
) -> (r: i32)
    requires
        -0x4000_0000 <= base <= 0x3FFF_FFFF,
    ensures
        r == adjusted_damage(
            base as int,
            resist@.contains(dtype),
            vuln@.contains(dtype),
            immune@.contains(dtype),
        ),
{
    if contains_damage_type(immune, dtype) {
        return 0;
    }
    let has_res = contains_damage_type(resist, dtype);
    let has_vuln = contains_damage_type(vuln, dtype);
    if has_res && has_vuln {
        base
    } else if has_res {
        let halved: i64 = if base >= 0 {
            base as i64 / 2
        } else {
            -((-(base as i64) + 1) / 2)
        };
        halved as i32
    } else if has_vuln {
        base * 2
    } else {
        base
    }
}

/// Degree of cover a defender enjoys, granting a bonus to its effective AC.
#[derive(Copy, Clone, Debug, PartialEq, Eq, Structural)]
pub enum Cover {
    Open,
    Half,
    ThreeQuarters,
}

/// The AC bonus a degree of cover grants.
pub open spec fn cover_bonus(c: Cover) -> int {
    match c {
        Cover::Open => 0,
        Cover::Half => 2,
        Cover::ThreeQuarters => 5,
    }
}

impl Cover {
    /// The AC bonus this degree of cover grants: +0, +2 or +5.
    pub fn ac_bonus(&self) -> (r: i32)
        ensures
            r == cover_bonus(*self),
    {
        match self {
            Cover::Open => 0,
            Cover::Half => 2,
            Cover::ThreeQuarters => 5,
        }
    }
}

impl Default for Cover {
    /// No cover unless stated.
    fn default() -> (r: Self)
        ensures
            r == Cover::Open,
    {
        Cover::Open
    }
}

/// Input of a d20 check: difficulty class, modifier, advantage mode.
#[derive(Debug, Clone, Copy)]
pub struct CheckInput {
    pub dc: i32,
    pub modifier: i32,
    pub mode: AdMode,
}

/// Result of a d20 check; all four parts are exposed for logging.
#[derive(Debug, Clone, Copy)]
pub struct CheckResult {
    pub roll: i32,
    pub total: i32,
    pub dc: i32,
    pub passed: bool,
}

/// Roll a d20 (with advantage or disadvantage), add the modifier, and pass
/// exactly when the total reaches the DC.
pub fn check(dice: &mut Dice, input: CheckInput) -> (r: CheckResult)
    requires
        input.modifier <= i32::MAX - 20,
    ensures
        r.roll == d20_kept(old(dice)@, input.mode) as int,
        1 <= r.roll <= 20,
        r.total == r.roll + input.modifier,
        r.dc == input.dc,
        r.passed == (r.total >= input.dc),
        final(dice)@ == d20_step(old(dice)@, input.mode),
{
    let roll = dice.d20(input.mode) as i32;
    let total = roll + input.modifier;
    CheckResult { roll, total, dc: input.dc, passed: total >= input.dc }
}

/// A number of dice with a common number of sides (for example 2d6).
#[derive(Copy, Clone, Debug, PartialEq, Eq, Structural)]
pub struct DamageDice {
    pub count: u8,
    pub sides: u8,
}

/// The number of dice actually rolled: a critical hit doubles the count
/// (saturating within a byte), never the rolled total.
pub open spec fn rolled_count(count: u8, crit: bool) -> nat {
    if crit {
        if 2 * count > 255 {
            255
        } else {
            2 * count as nat
        }
    } else {
        count as nat
    }
}

/// The sum of `n` dice with `sides` sides drawn from the stream `m`.
pub open spec fn dice_sum(m: DiceModel, n: nat, sides: u8) -> int
    decreases n,
{
    if n == 0 {
        0
    } else {
        model_next(m, 1, sides) + dice_sum(model_step(m, 1, sides), (n - 1) as nat, sides)
    }
}

/// The stream state after `n` dice with `sides` sides have been drawn.
pub open spec fn dice_step_n(m: DiceModel, n: nat, sides: u8) -> DiceModel
    decreases n,
{
    if n == 0 {
        m
    } else {
        dice_step_n(model_step(m, 1, sides), (n - 1) as nat, sides)
    }
}

/// The sum of `n` dice lies between `n` (all ones) and `n * sides` (all
/// maximal), whatever the stream.
pub proof fn lemma_dice_sum_bounds(m: DiceModel, n: nat, sides: u8)
    requires
        sides >= 1,
    ensures
        n <= dice_sum(m, n, sides) <= n * sides,
    decreases n,
{
    if n > 0 {
        lemma_dice_sum_bounds(model_step(m, 1, sides), (n - 1) as nat, sides);
        assert((n - 1) * sides == n * sides - sides) by (nonlinear_arith);
    }
}

impl DamageDice {
    /// A damage-dice expression of `count` dice with `sides` sides each.
    pub fn new(count: u8, sides: u8) -> (r: Self)
        ensures
            r.count == count,
            r.sides == sides,
    {
        DamageDice { count, sides }
    }

    /// Roll the dice and sum them; a critical hit doubles the number of dice
    /// rolled, not the total.
    pub fn roll_total(&self, dice: &mut Dice, crit: bool) -> (r: i32)
        requires
            self.sides >= 1,
        ensures
            r == dice_sum(old(dice)@, rolled_count(self.count, crit), self.sides),
            rolled_count(self.count, crit) <= r <= rolled_count(self.count, crit) * self.sides,
            final(dice)@ == dice_step_n(
                old(dice)@,
                rolled_count(self.count, crit),
                self.sides,
            ),
    {
        let n: u16 = if crit {
            self.count as u16 * 2
        } else {
            self.count as u16
        };
        let n: u16 = if n > 255 {
            255
        } else {
            n
        };
        let ghost total = rolled_count(self.count, crit);
        let ghost m0 = old(dice)@;
        let mut sum: i32 = 0;
        let mut i: u16 = 0;
        while i < n
            invariant
                i <= n,
                n == total,
                n <= 255,
                self.sides >= 1,
                sum == dice_sum(m0, i as nat, self.sides),
                i <= sum <= i * self.sides as int,
                i * self.sides as int <= 255 * 255,
                dice@ == dice_step_n(m0, i as nat, self.sides),
            decreases n - i,
        {
            let v = dice.die(self.sides) as i32;
            proof {
                lemma_dice_sum_snoc(m0, i as nat, self.sides);
                assert((i + 1) * self.sides as int == i * self.sides as int
                    + self.sides as int) by (nonlinear_arith);
                assert((i + 1) as int * self.sides as int <= 255 * 255) by (nonlinear_arith)
                    requires
                        0 <= (i + 1) as int <= 255,
                        1 <= self.sides as int <= 255,
                ;
            }
            sum = sum + v;
            i = i + 1;
        }
        sum
    }
}

/// Peeling the last die off a sum: `n + 1` dice are `n` dice plus one more
/// drawn from the stream those `n` dice left behind.
pub proof fn lemma_dice_sum_snoc(m: DiceModel, n: nat, sides: u8)
    ensures
        dice_sum(m, n + 1, sides) == dice_sum(m, n, sides) + model_next(
            dice_step_n(m, n, sides),
            1,
            sides,
        ),
        dice_step_n(m, n + 1, sides) == model_step(dice_step_n(m, n, sides), 1, sides),
    decreases n,
{
    if n == 0 {
        assert(dice_sum(m, 1, sides) == model_next(m, 1, sides) + dice_sum(
            model_step(m, 1, sides),
            0,
            sides,
        ));
        assert(dice_step_n(m, 1, sides) == dice_step_n(model_step(m, 1, sides), 0, sides));
    } else {
        lemma_dice_sum_snoc(model_step(m, 1, sides), (n - 1) as nat, sides);
        assert(dice_sum(m, n + 1, sides) == model_next(m, 1, sides) + dice_sum(
            model_step(m, 1, sides),
            n,
            sides,
        ));
        assert(dice_sum(m, n, sides) == model_next(m, 1, sides) + dice_sum(
            model_step(m, 1, sides),
            (n - 1) as nat,
            sides,
        ));
        assert(dice_step_n(m, n + 1, sides) == dice_step_n(model_step(m, 1, sides), n, sides));
        assert(dice_step_n(m, n, sides) == dice_step_n(
            model_step(m, 1, sides),
            (n - 1) as nat,
            sides,
        ));
    }
}

/// Result of an attack roll. The raw draws are kept so that downstream logic
/// can see whether a kept 20 came from a die that would otherwise have been
/// discarded.
#[derive(Debug, Clone)]
pub struct AttackResult {
    pub raw_rolls: Vec<u8>,
    pub roll: i32,
    pub total: i32,
    pub ac: i32,
    pub bonus: i32,
    pub nat20: bool,
    pub nat1: bool,
    pub is_crit: bool,
    pub hit: bool,
}

/// Resolve an attack roll: a natural 20 on the kept die always hits (and is a
/// critical hit), a natural 1 always misses; otherwise the attack hits
/// exactly when roll + bonus reaches the AC.
pub fn attack(dice: &mut Dice, mode: AdMode, bonus: i32, ac: i32) -> (r: AttackResult)
    requires
        bonus <= i32::MAX - 20,
    ensures
        r.raw_rolls@ == d20_raw_rolls(old(dice)@, mode),
        r.roll == d20_kept(old(dice)@, mode) as int,
        1 <= r.roll <= 20,
        r.total == r.roll + bonus,
        r.ac == ac,
        r.bonus == bonus,
        r.nat20 == (r.roll == 20),
        r.nat1 == (r.roll == 1),
        r.is_crit == r.nat20,
        r.hit == (r.nat20 || (!r.nat1 && r.total >= ac)),
        final(dice)@ == d20_step(old(dice)@, mode),
{
    let (raw_rolls, kept) = dice.d20_detail(mode);
    let roll = kept as i32;
    let nat20 = roll == 20;
    let nat1 = roll == 1;
    let total = roll + bonus;
    let hit = if nat20 {
        true
    } else if nat1 {
        false
    } else {
        total >= ac
    };
    AttackResult { raw_rolls, roll, total, ac, bonus, nat20, nat1, is_crit: nat20, hit }
}

/// Roll damage: sum the dice (doubling the count on a critical hit) and add
/// the modifier once. The result is not clamped; it can be negative only if
/// the modifier is.
pub fn damage(dice: &mut Dice, dice_spec: DamageDice, modifier: i32, crit: bool) -> (r: i32)
    requires
        dice_spec.sides >= 1,
        modifier <= i32::MAX - 0x2_0000,
    ensures
        r == dice_sum(old(dice)@, rolled_count(dice_spec.count, crit), dice_spec.sides) + modifier,
        final(dice)@ == dice_step_n(
            old(dice)@,
            rolled_count(dice_spec.count, crit),
            dice_spec.sides,
        ),
{
    let rolled = dice_spec.roll_total(dice, crit);
    proof {
        assert(rolled_count(dice_spec.count, crit) * dice_spec.sides as int <= 255 * 255)
            by (nonlinear_arith)
            requires
                0 <= rolled_count(dice_spec.count, crit) <= 255,
                0 <= dice_spec.sides as int <= 255,
        ;
    }
    rolled + modifier
}

/// A weapon: damage dice, handling flags, an optional two-handed (versatile)
/// dice expression and an optional fixed damage type.
#[derive(Debug, Clone)]
pub struct Weapon {
    pub name: String,
    pub dice: DamageDice,
    pub finesse: bool,
    pub ranged: bool,
    pub versatile: Option<DamageDice>,
    pub damage_type: Option<DamageType>,
}

/// The damage type a string names, compared without regard to ASCII case;
/// None for a name outside the closed set.
pub open spec fn spec_parse_damage_type(b: Seq<u8>) -> Option<DamageType> {
    if eq_ignore_case(b, "bludgeoning".spec_bytes()) {
        Some(DamageType::Bludgeoning)
    } else if eq_ignore_case(b, "piercing".spec_bytes()) {
        Some(DamageType::Piercing)
    } else if eq_ignore_case(b, "slashing".spec_bytes()) {
        Some(DamageType::Slashing)
    } else if eq_ignore_case(b, "fire".spec_bytes()) {
        Some(DamageType::Fire)
    } else if eq_ignore_case(b, "cold".spec_bytes()) {
        Some(DamageType::Cold)
    } else if eq_ignore_case(b, "lightning".spec_bytes()) {
        Some(DamageType::Lightning)
    } else if eq_ignore_case(b, "acid".spec_bytes()) {
        Some(DamageType::Acid)
    } else if eq_ignore_case(b, "poison".spec_bytes()) {
        Some(DamageType::Poison)
    } else if eq_ignore_case(b, "psychic".spec_bytes()) {
        Some(DamageType::Psychic)
    } else if eq_ignore_case(b, "radiant".spec_bytes()) {
        Some(DamageType::Radiant)
    } else if eq_ignore_case(b, "necrotic".spec_bytes()) {
        Some(DamageType::Necrotic)
    } else if eq_ignore_case(b, "thunder".spec_bytes()) {
        Some(DamageType::Thunder)
    } else if eq_ignore_case(b, "force".spec_bytes()) {
        Some(DamageType::Force)
    } else {
        None
    }
}

/// Map a damage-type name (any ASCII case) to the closed enum.
pub fn parse_damage_type(s: &str) -> (r: Option<DamageType>)
    ensures
        r == spec_parse_damage_type(s.spec_bytes()),
{
    let b = s.as_bytes();
    if bytes_eq_ignore_case(b, "bludgeoning".as_bytes()) {
        Some(DamageType::Bludgeoning)
    } else if bytes_eq_ignore_case(b, "piercing".as_bytes()) {
        Some(DamageType::Piercing)
    } else if bytes_eq_ignore_case(b, "slashing".as_bytes()) {
        Some(DamageType::Slashing)
    } else if bytes_eq_ignore_case(b, "fire".as_bytes()) {
        Some(DamageType::Fire)
    } else if bytes_eq_ignore_case(b, "cold".as_bytes()) {
        Some(DamageType::Cold)
    } else if bytes_eq_ignore_case(b, "lightning".as_bytes()) {
        Some(DamageType::Lightning)
    } else if bytes_eq_ignore_case(b, "acid".as_bytes()) {
        Some(DamageType::Acid)
    } else if bytes_eq_ignore_case(b, "poison".as_bytes()) {
        Some(DamageType::Poison)
    } else if bytes_eq_ignore_case(b, "psychic".as_bytes()) {
        Some(DamageType::Psychic)
    } else if bytes_eq_ignore_case(b, "radiant".as_bytes()) {
        Some(DamageType::Radiant)
    } else if bytes_eq_ignore_case(b, "necrotic".as_bytes()) {
        Some(DamageType::Necrotic)
    } else if bytes_eq_ignore_case(b, "thunder".as_bytes()) {
        Some(DamageType::Thunder)
    } else if bytes_eq_ignore_case(b, "force".as_bytes()) {
        Some(DamageType::Force)
    } else {
        None
    }
}

/// The damage type conventionally carried by a preset weapon name, if any.
pub open spec fn spec_preset_damage_type(b: Seq<u8>) -> Option<DamageType> {
    if eq_ignore_case(b, "longsword".spec_bytes()) || eq_ignore_case(b, "greatsword".spec_bytes()) {
        Some(DamageType::Slashing)
    } else if eq_ignore_case(b, "shortsword".spec_bytes()) || eq_ignore_case(
        b,
        "dagger".spec_bytes(),
    ) || eq_ignore_case(b, "longbow".spec_bytes()) {
        Some(DamageType::Piercing)
    } else {
        None
    }
}

/// The damage type conventionally dealt by a preset weapon name: swords
/// slash, points and arrows pierce.
pub fn preset_damage_type(name: &str) -> (r: Option<DamageType>)
    ensures
        r == spec_preset_damage_type(name.spec_bytes()),
{
    let b = name.as_bytes();
    if bytes_eq_ignore_case(b, "longsword".as_bytes()) || bytes_eq_ignore_case(
        b,
        "greatsword".as_bytes(),
    ) {
        Some(DamageType::Slashing)
    } else if bytes_eq_ignore_case(b, "shortsword".as_bytes()) || bytes_eq_ignore_case(
        b,
        "dagger".as_bytes(),
    ) || bytes_eq_ignore_case(b, "longbow".as_bytes()) {
        Some(DamageType::Piercing)
    } else {
        None
    }
}

/// Whether the weapon at index `i` matches the requested name up to case.
pub open spec fn weapon_name_matches(ws: Seq<Weapon>, i: int, name: Seq<u8>) -> bool {
    eq_ignore_case(chars_bytes(ws[i].name@), name)
}

/// Find the first weapon whose name equals `name` up to ASCII case.
pub fn find_weapon(weapons: &Vec<Weapon>, name: &str) -> (r: Option<usize>)
    ensures
        match r {
            Some(i) => i < weapons@.len() && weapon_name_matches(
                weapons@,
                i as int,
                name.spec_bytes(),
            ) && forall|j: int|
                0 <= j < i ==> !weapon_name_matches(weapons@, j, name.spec_bytes()),
            None => forall|j: int|
                0 <= j < weapons@.len() ==> !weapon_name_matches(weapons@, j, name.spec_bytes()),
        },
{
    let mut i: usize = 0;
    while i < weapons.len()
        invariant
            i <= weapons@.len(),
            forall|j: int| 0 <= j < i ==> !weapon_name_matches(weapons@, j, name.spec_bytes()),
        decreases weapons@.len() - i,
    {
        if str_eq_ignore_case_weapon(&weapons[i].name, name) {
            return Some(i);
        }
        i = i + 1;
    }
    None
}

/// Compare a weapon's stored name with a requested one, up to ASCII case.
fn str_eq_ignore_case_weapon(stored: &String, name: &str) -> (r: bool)
    ensures
        r == eq_ignore_case(chars_bytes(stored@), name.spec_bytes()),
{
    bytes_eq_ignore_case(stored.as_str().as_bytes(), name.as_bytes())
}


/// An ASCII decimal digit.
pub open spec fn is_digit(b: u8) -> bool {
    48 <= b <= 57
}

/// Every byte a decimal digit.
pub open spec fn all_digits(s: Seq<u8>) -> bool {
    forall|j: int| 0 <= j < s.len() ==> is_digit(#[trigger] s[j])
}

/// The number a string of decimal digits denotes.
pub open spec fn digits_value(s: Seq<u8>) -> int
    decreases s.len(),
{
    if s.len() == 0 {
        0
    } else {
        digits_value(s.drop_last()) * 10 + (s.last() - 48)
    }
}

/// A digit string's value is never negative, and appending digits never
/// shrinks it.
pub proof fn lemma_digits_value_nonneg(s: Seq<u8>)
    requires
        all_digits(s),
    ensures
        digits_value(s) >= 0,
    decreases s.len(),
{
    if s.len() > 0 {
        assert(all_digits(s.drop_last())) by {
            assert(forall|j: int| 0 <= j < s.len() - 1 ==> s.drop_last()[j] == s[j]);
        };
        lemma_digits_value_nonneg(s.drop_last());
        assert(digits_value(s.drop_last()) * 10 >= 0) by (nonlinear_arith)
            requires
                digits_value(s.drop_last()) >= 0,
        ;
    }
}

/// The byte that separates count from sides in a dice expression: an ASCII
/// 'd' of either case.
pub open spec fn is_dice_sep(b: u8) -> bool {
    b == 100 || b == 68
}

/// Whether position `i` splits the bytes into a well-formed dice
/// expression: the only separator, with a digit string on each side, the
/// count between 1 and 255 and the sides between 2 and 255.
pub open spec fn valid_dice_at(s: Seq<u8>, i: int) -> bool {
    &&& 0 < i < s.len() - 1
    &&& is_dice_sep(s[i])
    &&& forall|j: int| 0 <= j < s.len() && j != i ==> !is_dice_sep(#[trigger] s[j])
    &&& all_digits(s.take(i))
    &&& all_digits(s.skip(i + 1))
    &&& 1 <= digits_value(s.take(i)) <= 255
    &&& 2 <= digits_value(s.skip(i + 1)) <= 255
}

/// Parse the decimal digits of `b` between `from` and `to` as a byte value;
/// None when the range is empty, holds a non-digit, or exceeds 255.
fn parse_u8_digits(b: &[u8], from: usize, to: usize) -> (r: Option<u8>)
    requires
        from <= to <= b@.len(),
    ensures
        match r {
            Some(v) => all_digits(b@.subrange(from as int, to as int)) && to > from && v
                == digits_value(b@.subrange(from as int, to as int)),
            None => !(all_digits(b@.subrange(from as int, to as int)) && to > from && digits_value(
                b@.subrange(from as int, to as int),
            ) <= 255),
        },
{
    let ghost whole = b@.subrange(from as int, to as int);
    if from == to {
        return None;
    }
    let mut acc: u32 = 0;
    let mut k: usize = from;
    while k < to
        invariant
            from <= k <= to <= b@.len(),
            whole == b@.subrange(from as int, to as int),
            all_digits(b@.subrange(from as int, k as int)),
            acc == digits_value(b@.subrange(from as int, k as int)),
            acc <= 255,
        decreases to - k,
    {
        let ghost pre = b@.subrange(from as int, k as int);
        let c = b[k];
        if !(48 <= c && c <= 57) {
            proof {
                assert(whole[k as int - from as int] == b@[k as int]);
                assert(!is_digit(whole[k as int - from as int]));
            }
            return None;
        }
        let d = (c - 48) as u32;
        let next = acc * 10 + d;
        proof {
            let cur = b@.subrange(from as int, k as int + 1);
            assert(cur.drop_last() =~= pre);
            assert(cur.last() == b@[k as int]);
            assert(forall|j: int| 0 <= j < cur.len() ==> cur[j] == b@[from + j]);
        }
        if next > 255 {
            proof {
                let cur = b@.subrange(from as int, k as int + 1);
                if all_digits(whole) {
                    lemma_digits_prefix_le(whole, cur);
                }
            }
            return None;
        }
        acc = next;
        k = k + 1;
    }
    proof {
        assert(b@.subrange(from as int, to as int) =~= whole);
    }
    Some(acc as u8)
}

/// A digit string is worth at least any of its prefixes: if a prefix
/// already exceeds 255, so does the whole.
proof fn lemma_digits_prefix_le(whole: Seq<u8>, prefix: Seq<u8>)
    requires
        prefix.len() <= whole.len(),
        forall|j: int| 0 <= j < prefix.len() ==> whole[j] == prefix[j],
        all_digits(whole),
    ensures
        digits_value(prefix) <= digits_value(whole),
    decreases whole.len(),
{
    if prefix.len() == whole.len() {
        assert(prefix =~= whole);
    } else if whole.len() > 0 {
        assert(all_digits(whole.drop_last())) by {
            assert(forall|j: int|
                0 <= j < whole.len() - 1 ==> whole.drop_last()[j] == whole[j]);
        };
        lemma_digits_prefix_le(whole.drop_last(), prefix);
        lemma_digits_value_nonneg(whole.drop_last());
        assert(digits_value(whole.drop_last()) * 10 >= digits_value(whole.drop_last()))
            by (nonlinear_arith)
            requires
                digits_value(whole.drop_last()) >= 0,
        ;
    }
}

/// Parse a dice expression of the form `XdY` (either case of `d`): X dice
/// with Y sides, X between 1 and 255 and Y between 2 and 255. Anything
/// else, a second separator included, is a malformed dice specification.
#[verifier::loop_isolation(false)]
pub fn parse_damage_dice(s: &str) -> (r: Result<DamageDice, crate::api::SimError>)
    ensures
        (r is Ok) == (exists|i: int| valid_dice_at(s.spec_bytes(), i)),
        r matches Ok(dd) ==> exists|i: int|
            {
                &&& #[trigger] valid_dice_at(s.spec_bytes(), i)
                &&& dd.count == digits_value(s.spec_bytes().take(i))
                &&& dd.sides == digits_value(s.spec_bytes().skip(i + 1))
            },
        r matches Err(e) ==> e == crate::api::SimError::InvalidDice,
{
    let b = s.as_bytes();
    let ghost bb = s.spec_bytes();
    let n = b.len();
    let mut sep: usize = 0;
    let mut found = false;
    let mut k: usize = 0;
    while k < n && !found
        invariant
            k <= n,
            !found ==> forall|j: int| 0 <= j < k ==> !is_dice_sep(#[trigger] b@[j]),
            found ==> sep == k && sep < n && is_dice_sep(b@[sep as int]) && forall|j: int|
                0 <= j < sep ==> !is_dice_sep(#[trigger] b@[j]),
        decreases n - k, (if found { 0int } else { 1int }),
    {
        let c = b[k];
        if c == 100 || c == 68 {
            sep = k;
            found = true;
        } else {
            k = k + 1;
        }
    }
    if !found {
        proof {
            assert forall|i: int| !valid_dice_at(bb, i) by {
                if 0 < i < bb.len() - 1 {
                    assert(!is_dice_sep(b@[i]));
                }
            }
        }
        return Err(crate::api::SimError::InvalidDice);
    }
    let mut k: usize = sep + 1;
    while k < n
        invariant
            sep < k <= n,
            forall|j: int| sep < j < k ==> !is_dice_sep(#[trigger] b@[j]),
        decreases n - k,
    {
        let c = b[k];
        if c == 100 || c == 68 {
            proof {
                assert forall|i: int| !valid_dice_at(bb, i) by {
                    if valid_dice_at(bb, i) {
                        if i != sep as int {
                            assert(!is_dice_sep(b@[sep as int]));
                        } else {
                            assert(!is_dice_sep(b@[k as int]));
                        }
                    }
                }
            }
            return Err(crate::api::SimError::InvalidDice);
        }
        k = k + 1;
    }
    proof {
        assert forall|i: int| i != sep as int ==> !valid_dice_at(bb, i) by {
            if i != sep as int && valid_dice_at(bb, i) {
                assert(is_dice_sep(bb[i]));
                assert(!is_dice_sep(b@[i]));
            }
        }
        assert(b@.subrange(0, sep as int) =~= b@.take(sep as int));
        assert(b@.subrange(sep as int + 1, n as int) =~= b@.skip(sep as int + 1));
    }
    let count = parse_u8_digits(b, 0, sep);
    let sides = parse_u8_digits(b, sep + 1, n);
    if count.is_some() && sides.is_some() {
        let c = count.unwrap();
        let d = sides.unwrap();
        if c >= 1 && d >= 2 {
            proof {
                assert(valid_dice_at(bb, sep as int));
            }
            Ok(DamageDice { count: c, sides: d })
        } else {
            proof {
                assert(!valid_dice_at(bb, sep as int));
            }
            Err(crate::api::SimError::InvalidDice)
        }
    } else {
        proof {
            if valid_dice_at(bb, sep as int) {
                lemma_digits_value_nonneg(bb.take(sep as int));
                lemma_digits_value_nonneg(bb.skip(sep as int + 1));
                assert(false);
            }
        }
        Err(crate::api::SimError::InvalidDice)
    }
}

} // verus!
