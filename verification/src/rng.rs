//! Sources of randomness. Every builder draws its numbers through the
//! `RandomSource` trait, so each algorithm is verified for every possible
//! sequence of draws; deterministic sources make the generators repeatable.

use vstd::prelude::*;

verus! {

/// A supplier of uniformly-drawn numbers. The one promise every source
/// makes is that a draw below `bound` stays below `bound`.
pub trait RandomSource: Sized {
    fn next_below(&mut self, bound: u64) -> (r: u64)
        requires
            bound > 0,
        ensures
            r < bound,
    ;
}

/// Draws a number in `[lo, hi)` from any source.
pub fn rand_range<R: RandomSource>(rng: &mut R, lo: usize, hi: usize) -> (r: usize)
    requires
        lo < hi,
    ensures
        lo <= r < hi,
{
    let span = (hi - lo) as u64;
    let off = rng.next_below(span);
    lo + (off as usize)
}

/// Draws a number in `[lo, hi)` from any source, in signed grid coordinates.
pub fn rand_range_i32<R: RandomSource>(rng: &mut R, lo: i32, hi: i32) -> (r: i32)
    requires
        lo < hi,
        hi - lo <= i32::MAX,
    ensures
        lo <= r < hi,
{
    let span = (hi - lo) as u64;
    let off = rng.next_below(span);
    lo + (off as i32)
}

/// A small multiplicative congruential generator: deterministic, seedable,
/// and entirely verified. Used where repeatable maps are wanted.
pub struct Lcg {
    pub state: u64,
}

impl Lcg {
    pub fn new(seed: u64) -> (r: Lcg)
        ensures
            r.state == seed,
    {
        Lcg { state: seed }
    }
}

impl RandomSource for Lcg {
    fn next_below(&mut self, bound: u64) -> (r: u64) {
        self.state = self.state.wrapping_mul(6364136223846793005).wrapping_add(1442695040888963407);
        (self.state >> 33) % bound
    }
}

/// Replays a fixed list of draws, cycling when the list runs out; an empty
/// list always yields zero. Made for tests that fix the random sequence.
pub struct ScriptedSource {
    pub values: Vec<u64>,
    pub pos: usize,
}

impl ScriptedSource {
    pub fn new(values: Vec<u64>) -> (r: ScriptedSource)
        ensures
            r.values@ == values@,
            r.pos == 0,
    {
        ScriptedSource { values, pos: 0 }
    }
}

impl RandomSource for ScriptedSource {
    fn next_below(&mut self, bound: u64) -> (r: u64) {
        if self.values.len() == 0 {
            return 0;
        }
        if self.pos >= self.values.len() {
            self.pos = 0;
        }
        let v = self.values[self.pos];
        self.pos = self.pos + 1;
        v % bound
    }
}

#[verifier::external_type_specification]
#[verifier::external_body]
pub struct ExThreadRng(rand::rngs::ThreadRng);

/// The process-local generator of the `rand` crate: reseeded by the
/// operating system, never repeatable.
pub struct ThreadRandom {
    rng: rand::rngs::ThreadRng,
}

impl ThreadRandom {
    /// Relies on rand::thread_rng: a handle to the thread-local generator.
    #[verifier::external_body]
    pub fn new() -> (r: ThreadRandom) {
        ThreadRandom { rng: rand::thread_rng() }
    }
}

/// Relies on rand::Rng::gen_range: a draw from `low..high` lies in
/// `[low, high)`, so a draw from `0..bound` stays below `bound`.
#[verifier::external_body]
fn thread_rng_below(rng: &mut rand::rngs::ThreadRng, bound: u64) -> (r: u64)
    requires
        bound > 0,
    ensures
        r < bound,
{
    rand::Rng::gen_range(rng, 0..bound)
}

impl RandomSource for ThreadRandom {
    fn next_below(&mut self, bound: u64) -> (r: u64) {
        thread_rng_below(&mut self.rng, bound)
    }
}

/// The global generator of the `fastrand` crate: a light source suited to
/// the scramble's coin flips.
pub struct FastRandom {}

impl FastRandom {
    pub fn new() -> (r: FastRandom) {
        FastRandom {  }
    }
}

/// Relies on fastrand::u64: a draw from `0..bound` stays below `bound`.
#[verifier::external_body]
fn fastrand_below(bound: u64) -> (r: u64)
    requires
        bound > 0,
    ensures
        r < bound,
{
    fastrand::u64(0..bound)
}

impl RandomSource for FastRandom {
    fn next_below(&mut self, bound: u64) -> (r: u64) {
        fastrand_below(bound)
    }
}

} // verus!
