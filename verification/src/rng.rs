//! Random-number source.
//!
//! A `RandomState` is a linear-congruential generator whose stepping is fully
//! verified and deterministic, so a render seeded from a fixed state is
//! reproducible.  Fresh entropy for an unseeded render comes from the `rand`
//! crate through the assumed specification below.

use vstd::prelude::*;

verus! {

/// Relies on rand::random for seeding only; nothing is assumed about the
/// value it returns.
pub assume_specification<T>[ rand::random::<T> ]() -> (r: T)
    where
        rand::distributions::Standard: rand::distributions::Distribution<T>,
;

/// The generator's step: state * A + C modulo 2^64, with Knuth's MMIX
/// multiplier and increment.
pub open spec fn lcg_s(s: int) -> int {
    (s * 6364136223846793005 + 1442695040888963407) % 0x1_0000_0000_0000_0000
}

/// The value drawn from one step: the stepped state's upper 48 bits,
/// reduced below `bound`.
pub open spec fn draw_s(s: int, bound: int) -> int {
    (lcg_s(s) / 65536) % bound
}

/// A deterministic pseudo-random generator with a 64-bit state.
#[derive(Clone, Copy, PartialEq, Eq, Structural, Debug)]
pub struct RandomState {
    pub state: u64,
}

impl RandomState {
    /// A generator that will replay the same stream for the same seed.
    pub fn from_seed(seed: u64) -> (r: RandomState)
        ensures
            r.state == seed,
    {
        RandomState { state: seed }
    }

    /// A generator seeded from the process's entropy source.
    pub fn from_entropy() -> RandomState {
        RandomState { state: rand::random::<u64>() }
    }

    /// Advance the state once and return it.
    pub fn next_u64(&mut self) -> (r: u64)
        ensures
            final(self).state == lcg_s(old(self).state as int),
            r == final(self).state,
    {
        let st: u64 = self.state;
        proof {
            assert((st as int) * 6364136223846793005
                <= 0xffff_ffff_ffff_ffff * 6364136223846793005int)
                by (nonlinear_arith)
                requires st <= 0xffff_ffff_ffff_ffffu64;
        }
        let wide: u128 = (st as u128) * 6364136223846793005u128
            + 1442695040888963407u128;
        let ns: u64 = (wide % 0x1_0000_0000_0000_0000u128) as u64;
        self.state = ns;
        ns
    }

    /// A draw in `[0, bound)`, from the state's upper 48 bits: the low bits
    /// of a linear-congruential step have short periods.
    pub fn next_below(&mut self, bound: u64) -> (r: u64)
        requires
            bound >= 1,
        ensures
            final(self).state == lcg_s(old(self).state as int),
            r == draw_s(old(self).state as int, bound as int),
            r < bound,
    {
        let v = self.next_u64();
        (v / 65536) % bound
    }

    /// A fixed-point draw in `[0, SCALE)`, that is in the real unit interval.
    pub fn next_fixed(&mut self) -> (r: i64)
        ensures
            final(self).state == lcg_s(old(self).state as int),
            r == draw_s(old(self).state as int, crate::fixed::SCALE as int),
            0 <= r < crate::fixed::SCALE,
    {
        let v = self.next_below(65536);
        v as i64
    }

    /// A fixed-point draw in `[min, max)`.
    pub fn next_fixed_range(&mut self, min: i64, max: i64) -> (r: i64)
        requires
            min < max,
            -0x1000_0000_0000 <= min,
            max <= 0x1000_0000_0000,
        ensures
            final(self).state == lcg_s(old(self).state as int),
            r == min + draw_s(old(self).state as int, max - min),
            min <= r < max,
    {
        let span: u64 = (max - min) as u64;
        let v = self.next_below(span);
        min + (v as i64)
    }
}

} // verus!
