//! Randomization engine: a seedable, derivable source of uniform and
//! weighted draws. Every draw is a deterministic function of the stream's
//! prior state and seed, so a run with a fixed seed is reproducible, and
//! independent child streams are derived rather than shared.

use vstd::prelude::*;
use rand::Rng;
use rand::RngCore;
use rand::SeedableRng;

verus! {

/// Fixed denominator of [`Probability`]: `parts` out of this many.
pub const PROBABILITY_SCALE: u32 = 1000000;

/// A probability in `[0, 1]`, held as parts per million so that contracts
/// can speak of it as a plain integer.
#[derive(Clone, Copy, Debug, PartialEq, Eq, Structural)]
pub struct Probability {
    /// Numerator over [`PROBABILITY_SCALE`].
    pub parts: u32,
}

impl Probability {
    /// A probability never exceeds one.
    pub open spec fn wf(self) -> bool {
        self.parts <= PROBABILITY_SCALE
    }

    /// True of the probability that never hits.
    pub open spec fn is_never(self) -> bool {
        self.parts == 0
    }

    /// True of the probability that always hits.
    pub open spec fn is_always(self) -> bool {
        self.parts == PROBABILITY_SCALE
    }

    /// Builds a probability from parts per million, clamped into `[0, 1]`.
    pub fn new(parts: u32) -> (r: Self)
        ensures
            r.wf(),
            r.parts == if parts <= PROBABILITY_SCALE { parts as int } else { PROBABILITY_SCALE as int },
    {
        if parts <= PROBABILITY_SCALE {
            Probability { parts }
        } else {
            Probability { parts: PROBABILITY_SCALE }
        }
    }
}

#[verifier::external_type_specification]
#[verifier::external_body]
pub struct ExSmallRng(rand::rngs::SmallRng);

/// Relies on rand's `SeedableRng::seed_from_u64` for `SmallRng`: a generator
/// whose later draws are a function of the seed alone.
#[verifier::external_body]
fn rng_from_seed(seed: u64) -> rand::rngs::SmallRng {
    rand::rngs::SmallRng::seed_from_u64(seed)
}

/// Relies on rand's `SmallRng::from_rng` over `thread_rng`: a generator
/// seeded from the thread-local source, of which nothing is promised.
#[verifier::external_body]
fn rng_from_entropy() -> rand::rngs::SmallRng {
    rand::rngs::SmallRng::from_rng(rand::thread_rng()).expect("cannot get RNG from thread rng")
}

/// Relies on `SmallRng`'s derived `Clone`: the copy continues the stream
/// exactly as the original would.
#[verifier::external_body]
fn rng_clone(rng: &rand::rngs::SmallRng) -> rand::rngs::SmallRng {
    rng.clone()
}

/// Relies on rand's `RngCore::next_u32`; the drawn value carries no promise.
#[verifier::external_body]
fn rng_next_u32(rng: &mut rand::rngs::SmallRng) -> u32 {
    rng.next_u32()
}

/// Relies on rand's `RngCore::next_u64`; the drawn value carries no promise.
#[verifier::external_body]
fn rng_next_u64(rng: &mut rand::rngs::SmallRng) -> u64 {
    rng.next_u64()
}

/// Relies on rand's `Rng::gen` with the `Standard` distribution on `bool`:
/// a fair coin flip.
#[verifier::external_body]
fn rng_coin(rng: &mut rand::rngs::SmallRng) -> bool {
    rng.gen::<bool>()
}

/// Relies on rand's `Rng::gen_range` over `lo..=hi`: a draw within the
/// inclusive range; it panics only on an empty range, which the
/// precondition rules out.
#[verifier::external_body]
fn rng_range_i32(rng: &mut rand::rngs::SmallRng, lo: i32, hi: i32) -> (r: i32)
    requires
        lo <= hi,
    ensures
        lo <= r <= hi,
{
    rng.gen_range(lo..=hi)
}

/// Relies on rand's `Rng::gen_range` over `lo..hi`: a draw within the
/// half-open range; it panics only on an empty range, which the
/// precondition rules out.
#[verifier::external_body]
fn rng_range_u64(rng: &mut rand::rngs::SmallRng, lo: u64, hi: u64) -> (r: u64)
    requires
        lo < hi,
    ensures
        lo <= r < hi,
{
    rng.gen_range(lo..hi)
}

/// Relies on rand's `Rng::gen_range` over `lo..hi` for `u128`: a draw within
/// the half-open range; it panics only on an empty range, which the
/// precondition rules out.
#[verifier::external_body]
fn rng_range_u128(rng: &mut rand::rngs::SmallRng, lo: u128, hi: u128) -> (r: u128)
    requires
        lo < hi,
    ensures
        lo <= r < hi,
{
    rng.gen_range(lo..hi)
}

/// Sum of the first `n` weights.
pub open spec fn weight_sum(ws: Seq<usize>, n: int) -> int
    decreases n,
{
    if n <= 0 {
        0
    } else {
        weight_sum(ws, n - 1) + ws[n - 1]
    }
}

/// A prefix sum of weights is non-negative and at most `n` times the
/// largest weight a machine word can hold.
proof fn lemma_weight_sum_bounds(ws: Seq<usize>, n: int)
    requires
        0 <= n <= ws.len(),
    ensures
        0 <= weight_sum(ws, n),
        weight_sum(ws, n) <= n * usize::MAX,
    decreases n,
{
    if n > 0 {
        lemma_weight_sum_bounds(ws, n - 1);
        assert((n - 1) * usize::MAX + usize::MAX == n * usize::MAX) by (nonlinear_arith);
    }
}

/// Prefix sums of weights grow with the prefix.
proof fn lemma_weight_sum_mono(ws: Seq<usize>, a: int, b: int)
    requires
        0 <= a <= b <= ws.len(),
    ensures
        weight_sum(ws, a) <= weight_sum(ws, b),
    decreases b - a,
{
    if a < b {
        lemma_weight_sum_mono(ws, a, b - 1);
    }
}

/// The way to use randomized values generically: uniform and weighted
/// draws, coin flips and probability tests, and derivation of independent
/// child streams.
pub trait PureRandom: Sized {
    /// Derives a decorrelated child stream, different for every call.
    fn new_pure_random(&mut self) -> Self;

    /// Draws an integer uniformly from the closed interval `[min, max]`;
    /// equal bounds are normalized to `min` without consuming a draw, so
    /// the stream is left untouched.
    fn uniform_int(&mut self, min: i32, max: i32) -> (r: i32)
        requires
            min <= max,
        ensures
            min <= r <= max,
            min == max ==> r == min && *final(self) == *old(self);

    /// Flips a fair coin; true means heads.
    fn is_head_not_tails(&mut self) -> bool;

    /// Tests a probability: an impossible one never hits and a sure one
    /// always does.
    fn is_hit(&mut self, probability: Probability) -> (r: bool)
        requires
            probability.wf(),
        ensures
            probability.is_never() ==> !r,
            probability.is_always() ==> r;

    /// Picks an index with likelihood proportional to its weight; an index
    /// of weight zero is never picked, so some weight must be positive.
    fn weighted(&mut self, weights: &Vec<usize>) -> (r: usize)
        requires
            exists|i: int| 0 <= i < weights@.len() && weights@[i] > 0,
        ensures
            r < weights@.len(),
            weights@[r as int] > 0;
}

/// The default randomization engine, backed by a small fast generator.
pub struct DefaultPureRandom {
    rng: rand::rngs::SmallRng,
}

impl DefaultPureRandom {
    /// Creates an engine with repeatable draws for the given seed.
    pub fn with_seed(seed: u64) -> Self {
        DefaultPureRandom { rng: rng_from_seed(seed) }
    }

    /// Creates an engine with a fixed seed, for reproducible behavior.
    pub fn for_tests() -> Self {
        Self::with_seed(1234567890)
    }

    /// Creates an engine seeded from the thread-local source; such a run is
    /// not reproducible.
    pub fn new_random() -> Self {
        DefaultPureRandom { rng: rng_from_entropy() }
    }

    /// Behaves like `Copy` without implementing the trait: the copy repeats
    /// the original's future draws, so it is rarely what a caller wants.
    pub fn generate_copy(&self) -> Self {
        DefaultPureRandom { rng: rng_clone(&self.rng) }
    }

    /// Draws one machine word of 32 bits.
    pub fn next_u32(&mut self) -> u32 {
        rng_next_u32(&mut self.rng)
    }

    /// Draws one machine word of 64 bits.
    pub fn next_u64(&mut self) -> u64 {
        rng_next_u64(&mut self.rng)
    }
}

impl PureRandom for DefaultPureRandom {
    fn new_pure_random(&mut self) -> Self {
        let seed = rng_next_u64(&mut self.rng);
        DefaultPureRandom { rng: rng_from_seed(seed) }
    }

    fn uniform_int(&mut self, min: i32, max: i32) -> (r: i32) {
        if min == max {
            return min;
        }
        rng_range_i32(&mut self.rng, min, max)
    }

    fn is_head_not_tails(&mut self) -> bool {
        rng_coin(&mut self.rng)
    }

    fn is_hit(&mut self, probability: Probability) -> (r: bool) {
        let draw = rng_range_u64(&mut self.rng, 0, PROBABILITY_SCALE as u64);
        draw < probability.parts as u64
    }

    fn weighted(&mut self, weights: &Vec<usize>) -> (r: usize) {
        let n = weights.len();
        let mut total: u128 = 0;
        let mut i: usize = 0;
        while i < n
            invariant
                n == weights@.len(),
                i <= n,
                total == weight_sum(weights@, i as int),
            decreases n - i,
        {
            proof {
                lemma_weight_sum_bounds(weights@, i + 1);
                assert((i + 1) * usize::MAX < u128::MAX) by (nonlinear_arith)
                    requires
                        0 <= i as int + 1 <= 0x10000000000000000,
                        usize::MAX <= 0xffffffffffffffff,
                ;
            }
            total = total + weights[i] as u128;
            i = i + 1;
        }
        proof {
            let j = choose|j: int| 0 <= j < weights@.len() && weights@[j] > 0;
            lemma_weight_sum_bounds(weights@, j);
            lemma_weight_sum_mono(weights@, j + 1, n as int);
        }
        let t = rng_range_u128(&mut self.rng, 0, total);
        let mut acc: u128 = 0;
        let mut k: usize = 0;
        while k < n
            invariant
                n == weights@.len(),
                k <= n,
                acc == weight_sum(weights@, k as int),
                acc <= t,
                t < total,
                total == weight_sum(weights@, n as int),
            decreases n - k,
        {
            proof {
                lemma_weight_sum_mono(weights@, k + 1, n as int);
            }
            let w = weights[k];
            if t < acc + w as u128 {
                return k;
            }
            acc = acc + w as u128;
            k = k + 1;
        }
        proof {
            assert(false);
        }
        0
    }
}

} // verus!
