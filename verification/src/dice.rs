//! Dice engine: a reproducible seeded stream of rolls, or a scripted list of
//! predetermined rolls, with advantage / disadvantage keep-high / keep-low
//! semantics.

use vstd::prelude::*;

verus! {

use rand::Rng;
use rand::SeedableRng;

/// Advantage mode for a d20 roll: roll once, or roll twice and keep the
/// higher (Advantage) or the lower (Disadvantage).
#[derive(Copy, Clone, Debug, PartialEq, Eq, Structural)]
pub enum AdMode {
    Normal,
    Advantage,
    Disadvantage,
}

/// Mathematical model of a dice source: either a seeded pseudorandom stream,
/// identified by its seed and the draws it has already served, or a scripted
/// list of remaining rolls.
pub enum DiceModel {
    Seeded { seed: u64, taken: Seq<(u8, u8)> },
    Scripted { rem: Seq<u8> },
}

/// Names the value that rand's `gen_range(lo..=hi)` returns on a ChaCha8
/// generator that was built by `seed_from_u64(seed)` and has since served the
/// draws listed in `taken` (inclusive bound pairs, oldest first). ChaCha8 is a
/// deterministic, platform-independent stream cipher generator, so the value
/// depends on these arguments alone.
pub uninterp spec fn chacha_range_value(seed: u64, taken: Seq<(u8, u8)>, lo: u8, hi: u8) -> u8;

/// The seed of a seeded model.
pub open spec fn seed_of(m: DiceModel) -> u64 {
    match m {
        DiceModel::Seeded { seed, .. } => seed,
        DiceModel::Scripted { .. } => 0,
    }
}

/// The draw history of a seeded model.
pub open spec fn taken_of(m: DiceModel) -> Seq<(u8, u8)> {
    match m {
        DiceModel::Seeded { taken, .. } => taken,
        DiceModel::Scripted { .. } => Seq::empty(),
    }
}

/// The raw next value of a stream for an inclusive draw between `lo` and `hi`.
pub open spec fn model_raw(m: DiceModel, lo: u8, hi: u8) -> u8 {
    match m {
        DiceModel::Seeded { seed, taken } => chacha_range_value(seed, taken, lo, hi),
        DiceModel::Scripted { rem } => if rem.len() > 0 {
            rem[0]
        } else {
            lo
        },
    }
}

/// The next value of a stream, forced into the requested bounds: a scripted
/// value outside them falls back to `lo`; a seeded value is always in bounds.
pub open spec fn model_next(m: DiceModel, lo: u8, hi: u8) -> u8 {
    let r = model_raw(m, lo, hi);
    if lo <= r && r <= hi {
        r
    } else {
        lo
    }
}

/// The stream state after one draw between `lo` and `hi`.
pub open spec fn model_step(m: DiceModel, lo: u8, hi: u8) -> DiceModel {
    match m {
        DiceModel::Seeded { seed, taken } => DiceModel::Seeded {
            seed,
            taken: taken.push((lo, hi)),
        },
        DiceModel::Scripted { rem } => DiceModel::Scripted {
            rem: if rem.len() > 0 {
                rem.skip(1)
            } else {
                rem
            },
        },
    }
}

#[verifier::external_type_specification]
#[verifier::external_body]
pub struct ExChaCha8Rng(rand_chacha::ChaCha8Rng);

/// A dice source: a seeded pseudorandom stream (reproducible: the same seed
/// yields the same sequence of rolls), or a scripted list of rolls served in
/// order (for driving the engine from a predetermined sequence).
pub struct Dice {
    rng: Option<rand_chacha::ChaCha8Rng>,
    script: Vec<u8>,
    pos: usize,
    seed: Ghost<u64>,
    taken: Ghost<Seq<(u8, u8)>>,
}

impl View for Dice {
    type V = DiceModel;

    closed spec fn view(&self) -> DiceModel {
        if self.rng is Some {
            DiceModel::Seeded { seed: self.seed@, taken: self.taken@ }
        } else {
            DiceModel::Scripted {
                rem: if self.pos <= self.script@.len() {
                    self.script@.skip(self.pos as int)
                } else {
                    Seq::empty()
                },
            }
        }
    }
}

/// Relies on rand_chacha::ChaCha8Rng::seed_from_u64 (rand_core's seeding
/// helper, documented as value-stable): builds the generator for this seed.
#[verifier::external_body]
fn chacha_from_seed(seed: u64) -> rand_chacha::ChaCha8Rng {
    rand_chacha::ChaCha8Rng::seed_from_u64(seed)
}

impl Dice {
    /// Construct a reproducible pseudorandom dice stream from a seed.
    pub fn from_seed(seed: u64) -> (r: Dice)
        ensures
            r@ == (DiceModel::Seeded { seed, taken: Seq::<(u8, u8)>::empty() }),
    {
        Dice {
            rng: Some(chacha_from_seed(seed)),
            script: Vec::new(),
            pos: 0,
            seed: Ghost(seed),
            taken: Ghost(Seq::empty()),
        }
    }

    /// Construct a dice source that serves the given rolls in order. A value
    /// outside the bounds of the draw that consumes it is read as the lower
    /// bound; an exhausted script keeps returning the lower bound.
    pub fn from_scripted(rolls: Vec<u8>) -> (r: Dice)
        ensures
            r@ == (DiceModel::Scripted { rem: rolls@ }),
    {
        let r = Dice {
            rng: None,
            script: rolls,
            pos: 0,
            seed: Ghost(0u64),
            taken: Ghost(Seq::empty()),
        };
        proof {
            assert(r.script@.skip(0) =~= r.script@);
        }
        r
    }

    /// Relies on rand::Rng::gen_range over an inclusive byte range on a
    /// ChaCha8 generator: the result is within the bounds (the range is never
    /// empty since `lo <= hi`), and it is a function of the generator's seed
    /// and the draws already served, which `Dice`'s private constructors and
    /// methods keep paired with the generator.
    #[verifier::external_body]
    fn seeded_draw(&mut self, lo: u8, hi: u8) -> (r: u8)
        requires
            old(self)@ is Seeded,
            lo <= hi,
        ensures
            lo <= r <= hi,
            r == chacha_range_value(seed_of(old(self)@), taken_of(old(self)@), lo, hi),
            final(self)@ == model_step(old(self)@, lo, hi),
    {
        self.rng.as_mut().unwrap().gen_range(lo..=hi)
    }

    /// Draw one value between `lo` and `hi` inclusive and advance the stream.
    fn draw(&mut self, lo: u8, hi: u8) -> (r: u8)
        requires
            lo <= hi,
        ensures
            lo <= r <= hi,
            r == model_next(old(self)@, lo, hi),
            final(self)@ == model_step(old(self)@, lo, hi),
    {
        if self.rng.is_some() {
            self.seeded_draw(lo, hi)
        } else {
            let ghost pre = self@;
            if self.pos < self.script.len() {
                let v = self.script[self.pos];
                self.pos = self.pos + 1;
                let r = if lo <= v && v <= hi {
                    v
                } else {
                    lo
                };
                proof {
                    let rem0 = self.script@.skip(self.pos as int - 1);
                    assert(rem0[0] == self.script@[self.pos as int - 1]);
                    assert(self.script@.skip(self.pos as int) =~= rem0.skip(1));
                }
                r
            } else {
                proof {
                    if self.pos <= self.script@.len() {
                        assert(self.script@.skip(self.pos as int) =~= Seq::<u8>::empty());
                    }
                }
                lo
            }
        }
    }

    /// Roll a d20 under the given advantage mode: one draw under Normal, two
    /// draws keeping the higher under Advantage, the lower under Disadvantage.
    pub fn d20(&mut self, mode: AdMode) -> (r: u8)
        ensures
            1 <= r <= 20,
            r == d20_kept(old(self)@, mode),
            final(self)@ == d20_step(old(self)@, mode),
    {
        match mode {
            AdMode::Normal => self.draw(1, 20),
            AdMode::Advantage => {
                let a = self.draw(1, 20);
                let b = self.draw(1, 20);
                if a >= b {
                    a
                } else {
                    b
                }
            },
            AdMode::Disadvantage => {
                let a = self.draw(1, 20);
                let b = self.draw(1, 20);
                if a <= b {
                    a
                } else {
                    b
                }
            },
        }
    }

    /// Roll a d20 under the given mode and also hand back the raw draws, so
    /// that a caller can tell whether a kept 20 came from the first or the
    /// second die.
    pub fn d20_detail(&mut self, mode: AdMode) -> (res: (Vec<u8>, u8))
        ensures
            res.0@ == d20_raw_rolls(old(self)@, mode),
            res.1 == d20_kept(old(self)@, mode),
            final(self)@ == d20_step(old(self)@, mode),
            1 <= res.1 <= 20,
    {
        let mut rolls: Vec<u8> = Vec::new();
        let kept = match mode {
            AdMode::Normal => {
                let a = self.draw(1, 20);
                rolls.push(a);
                a
            },
            AdMode::Advantage => {
                let a = self.draw(1, 20);
                let b = self.draw(1, 20);
                rolls.push(a);
                rolls.push(b);
                if a >= b {
                    a
                } else {
                    b
                }
            },
            AdMode::Disadvantage => {
                let a = self.draw(1, 20);
                let b = self.draw(1, 20);
                rolls.push(a);
                rolls.push(b);
                if a <= b {
                    a
                } else {
                    b
                }
            },
        };
        proof {
            assert(rolls@ =~= d20_raw_rolls(old(self)@, mode));
        }
        (rolls, kept)
    }

    /// Roll a generic die: an integer between 1 and `sides` inclusive.
    pub fn die(&mut self, sides: u8) -> (r: u8)
        requires
            sides >= 1,
        ensures
            1 <= r <= sides,
            r == model_next(old(self)@, 1, sides),
            final(self)@ == model_step(old(self)@, 1, sides),
    {
        self.draw(1, sides)
    }

    /// Roll `k` d20s under Normal mode. The result is a function of the
    /// stream's state alone, so two sources built from the same seed yield
    /// identical sequences.
    pub fn d20_series(&mut self, k: usize) -> (r: Vec<u8>)
        ensures
            r@ == d20_stream(old(self)@, k as nat),
            final(self)@ == d20_stream_step(old(self)@, k as nat),
    {
        let mut out: Vec<u8> = Vec::new();
        let ghost m0 = self@;
        let mut i: usize = 0;
        while i < k
            invariant
                i <= k,
                out@.len() == i,
                d20_stream(m0, k as nat) == out@ + d20_stream(self@, (k - i) as nat),
                d20_stream_step(m0, k as nat) == d20_stream_step(self@, (k - i) as nat),
            decreases k - i,
        {
            let ghost pre = self@;
            let v = self.draw(1, 20);
            out.push(v);
            proof {
                assert(d20_stream(pre, (k - i) as nat) == seq![model_next(pre, 1, 20)]
                    + d20_stream(self@, (k - i - 1) as nat));
                assert(out@ + d20_stream(self@, (k - i - 1) as nat) =~= (out@.drop_last()
                    + seq![v]) + d20_stream(self@, (k - i - 1) as nat));
                assert(out@.drop_last() + (seq![v] + d20_stream(self@, (k - i - 1) as nat))
                    =~= (out@.drop_last() + seq![v]) + d20_stream(self@, (k - i - 1) as nat));
            }
            i = i + 1;
        }
        proof {
            assert(d20_stream(m0, k as nat) =~= out@ + d20_stream(self@, 0));
            assert(out@ + Seq::<u8>::empty() =~= out@);
        }
        out
    }
}

/// The first d20 value a stream yields.
pub open spec fn d20_first(m: DiceModel) -> u8 {
    model_next(m, 1, 20)
}

/// The second d20 value a stream yields.
pub open spec fn d20_second(m: DiceModel) -> u8 {
    model_next(model_step(m, 1, 20), 1, 20)
}

/// The larger of two rolls.
pub open spec fn roll_max(a: u8, b: u8) -> u8 {
    if a >= b {
        a
    } else {
        b
    }
}

/// The smaller of two rolls.
pub open spec fn roll_min(a: u8, b: u8) -> u8 {
    if a <= b {
        a
    } else {
        b
    }
}

/// The kept d20 roll for a stream under an advantage mode.
pub open spec fn d20_kept(m: DiceModel, mode: AdMode) -> u8 {
    match mode {
        AdMode::Normal => d20_first(m),
        AdMode::Advantage => roll_max(d20_first(m), d20_second(m)),
        AdMode::Disadvantage => roll_min(d20_first(m), d20_second(m)),
    }
}

/// The raw d20 draws for a stream under an advantage mode, in draw order.
pub open spec fn d20_raw_rolls(m: DiceModel, mode: AdMode) -> Seq<u8> {
    match mode {
        AdMode::Normal => seq![d20_first(m)],
        AdMode::Advantage => seq![d20_first(m), d20_second(m)],
        AdMode::Disadvantage => seq![d20_first(m), d20_second(m)],
    }
}

/// The stream state after a d20 roll under an advantage mode.
pub open spec fn d20_step(m: DiceModel, mode: AdMode) -> DiceModel {
    match mode {
        AdMode::Normal => model_step(m, 1, 20),
        AdMode::Advantage => model_step(model_step(m, 1, 20), 1, 20),
        AdMode::Disadvantage => model_step(model_step(m, 1, 20), 1, 20),
    }
}

/// The sequence of `k` Normal-mode d20 rolls a stream yields.
pub open spec fn d20_stream(m: DiceModel, k: nat) -> Seq<u8>
    decreases k,
{
    if k == 0 {
        Seq::empty()
    } else {
        seq![model_next(m, 1, 20)] + d20_stream(model_step(m, 1, 20), (k - 1) as nat)
    }
}

/// The stream state after `k` Normal-mode d20 rolls.
pub open spec fn d20_stream_step(m: DiceModel, k: nat) -> DiceModel
    decreases k,
{
    if k == 0 {
        m
    } else {
        d20_stream_step(model_step(m, 1, 20), (k - 1) as nat)
    }
}


/// One step of the linear congruential generator behind `roll_internal`.
#[verifier::opaque]
pub open spec fn lcg_step(state: u64) -> u64 {
    vstd::wrapping::u64_specs::wrapping_add(
        vstd::wrapping::u64_specs::wrapping_mul(state, 6364136223846793005u64),
        1u64,
    )
}

/// The generator state after `n` steps.
pub open spec fn lcg_state_n(state: u64, n: nat) -> u64
    decreases n,
{
    if n == 0 {
        state
    } else {
        lcg_state_n(lcg_step(state), (n - 1) as nat)
    }
}

/// The sum of `n` dice of `sides` sides drawn from the generator: each draw
/// advances the state and reads the top 32 bits modulo the side count,
/// plus one.
pub open spec fn lcg_sum(state: u64, n: nat, sides: int) -> int
    decreases n,
{
    if n == 0 {
        0
    } else {
        let s2 = lcg_step(state);
        ((s2 >> 32) as u32 as int) % sides + 1 + lcg_sum(s2, (n - 1) as nat, sides)
    }
}

/// Peeling the last roll off an LCG sum.
pub proof fn lemma_lcg_sum_snoc(state: u64, n: nat, sides: int)
    ensures
        lcg_sum(state, n + 1, sides) == lcg_sum(state, n, sides) + ((lcg_step(
            lcg_state_n(state, n),
        ) >> 32) as u32 as int) % sides + 1,
        lcg_state_n(state, n + 1) == lcg_step(lcg_state_n(state, n)),
    decreases n,
{
    if n == 0 {
        assert(lcg_sum(state, 1, sides) == ((lcg_step(state) >> 32) as u32 as int) % sides + 1
            + lcg_sum(lcg_step(state), 0, sides));
        assert(lcg_state_n(state, 1) == lcg_state_n(lcg_step(state), 0));
    } else {
        lemma_lcg_sum_snoc(lcg_step(state), (n - 1) as nat, sides);
        assert(lcg_sum(state, n + 1, sides) == ((lcg_step(state) >> 32) as u32 as int) % sides + 1
            + lcg_sum(lcg_step(state), n, sides));
        assert(lcg_sum(state, n, sides) == ((lcg_step(state) >> 32) as u32 as int) % sides + 1
            + lcg_sum(lcg_step(state), (n - 1) as nat, sides));
        assert(lcg_state_n(state, n + 1) == lcg_state_n(lcg_step(state), n));
        assert(lcg_state_n(state, n) == lcg_state_n(lcg_step(state), (n - 1) as nat));
    }
}

/// An LCG sum of `n` rolls lies between `n` and `n * sides`.
pub proof fn lemma_lcg_sum_bounds(state: u64, n: nat, sides: int)
    requires
        sides >= 1,
    ensures
        n <= lcg_sum(state, n, sides) <= n * sides,
    decreases n,
{
    if n > 0 {
        lemma_lcg_sum_bounds(lcg_step(state), (n - 1) as nat, sides);
        let s2 = lcg_step(state);
        assert(0 <= ((s2 >> 32) as u32 as int) % sides < sides);
        assert((n - 1) * sides == n * sides - sides) by (nonlinear_arith);
    }
}

/// Sum `n` rolls of a die with `sides` sides from a simple linear
/// congruential generator seeded with `seed`. Deterministic: the same
/// arguments always give the same total. A non-positive count yields 0; a
/// side count below 1 is read as 1.
#[verifier::loop_isolation(false)]
#[verifier::rlimit(60)]
pub fn roll_internal(seed: i64, n: i32, sides: i32) -> (r: i32)
    ensures
        n <= 0 ==> r == 0,
        (n > 0 && n as int * (if sides > 1 {
            sides as int
        } else {
            1
        }) <= i32::MAX) ==> r == lcg_sum(
            vstd::wrapping::u64_specs::wrapping_add_signed(0u64, seed),
            n as nat,
            if sides > 1 {
                sides as int
            } else {
                1
            },
        ),
{
    let rolls: i64 = if n > 0 {
        n as i64
    } else {
        0
    };
    let sides_i: i64 = if sides > 1 {
        sides as i64
    } else {
        1
    };
    let mut state: u64 = 0u64.wrapping_add_signed(seed);
    let ghost s0 = state;
    let mut total: i64 = 0;
    let mut i: i64 = 0;
    while i < rolls
        invariant
            0 <= i <= rolls,
            state == lcg_state_n(s0, i as nat),
            total == lcg_sum(s0, i as nat, sides_i as int),
        decreases rolls - i,
    {
        let ghost prev = state;
        proof {
            lemma_lcg_sum_snoc(s0, i as nat, sides_i as int);
            lemma_lcg_sum_bounds(s0, i as nat, sides_i as int);
            assert(i * sides_i <= 0x4000_0000_0000_0000) by (nonlinear_arith)
                requires
                    0 <= i < 0x8000_0000,
                    1 <= sides_i < 0x8000_0000,
            ;
        }
        state = state.wrapping_mul(6364136223846793005).wrapping_add(1);
        proof {
            assert(state == lcg_step(prev)) by {
                reveal(lcg_step);
            };
            assert((state >> 32) <= u32::MAX as u64) by (bit_vector);
        }
        let word = (state >> 32) as u32;
        let r = (word as i64) % sides_i + 1;
        total = total + r;
        i = i + 1;
    }
    proof {
        lemma_lcg_sum_bounds(s0, rolls as nat, sides_i as int);
        if n > 0 && n as int * (sides_i as int) <= i32::MAX {
            assert(total <= rolls * sides_i);
            assert(rolls as int * (sides_i as int) == n as int * (sides_i as int));
            assert(total <= i32::MAX);
        }
    }
    #[verifier::truncate] (total as i32)
}

} // verus!
