//! The 128-bit xoroshiro generator used by every spawn draw.

use vstd::prelude::*;

verus! {

/// Second word of a freshly seeded generator.
pub const XOROSHIRO_CONST: u64 = 0x82A2B175229D6A5B;

/// Rejected draws that `next_max` tolerates before it reduces the last draw
/// modulo its bound instead of drawing again.
pub const REJECTION_LIMIT: u64 = 0xFFFF_FFFF_FFFF_FFFF;

#[derive(Copy, Clone)]
pub struct Xoroshiro {
    pub seed0: u64,
    pub seed1: u64,
}

pub open spec fn rotl(x: u64, k: u64) -> u64 {
    (x << k) | (x >> (64 - k) as u64)
}

/// The generator right after `new(seed)`.
pub open spec fn seeded(seed: u64) -> Xoroshiro {
    Xoroshiro { seed0: seed, seed1: XOROSHIRO_CONST }
}

/// The value that the next draw yields.
pub open spec fn output(x: Xoroshiro) -> u64 {
    vstd::wrapping::u64_specs::wrapping_add(x.seed0, x.seed1)
}

/// The state after one draw.
pub open spec fn step(x: Xoroshiro) -> Xoroshiro {
    let s1 = x.seed1 ^ x.seed0;
    Xoroshiro { seed0: rotl(x.seed0, 24) ^ s1 ^ (s1 << 16u64), seed1: rotl(s1, 37) }
}

/// The state after `n` draws.
pub open spec fn advance(x: Xoroshiro, n: nat) -> Xoroshiro
    decreases n,
{
    if n == 0 {
        x
    } else {
        step(advance(x, (n - 1) as nat))
    }
}

/// The `n`-th value drawn (counting from zero).
pub open spec fn nth(x: Xoroshiro, n: nat) -> u64 {
    output(advance(x, n))
}

/// The smallest all-ones mask that covers `x - 1`, as far as 32 bits reach.
pub open spec fn bit_mask(x: u64) -> u64 {
    let a = (x - 1) as u64;
    let b = a | (a >> 1u64);
    let c = b | (b >> 2u64);
    let d = c | (c >> 4u64);
    let e = d | (d >> 8u64);
    e | (e >> 16u64)
}

/// Rejection sampling below `max` with `mask`: the draw and the state after it.
pub open spec fn sample_below(x: Xoroshiro, mask: u64, max: u64, fuel: nat) -> (u64, Xoroshiro)
    decreases fuel,
{
    let r = output(x) & mask;
    if r < max {
        (r, step(x))
    } else if fuel == 0 {
        ((r % max) as u64, step(x))
    } else {
        sample_below(step(x), mask, max, (fuel - 1) as nat)
    }
}

/// What `next_max(max)` yields and leaves behind.
pub open spec fn draw_below(x: Xoroshiro, max: u64) -> (u64, Xoroshiro) {
    sample_below(x, bit_mask(max), max, REJECTION_LIMIT as nat)
}

pub proof fn lemma_sample_below_bound(x: Xoroshiro, mask: u64, max: u64, fuel: nat)
    requires
        max > 0,
    ensures
        sample_below(x, mask, max, fuel).0 < max,
    decreases fuel,
{
    if fuel > 0 && output(x) & mask >= max {
        lemma_sample_below_bound(step(x), mask, max, (fuel - 1) as nat);
    }
}

impl Xoroshiro {
    pub fn new(seed: u64) -> (r: Self)
        ensures
            r == seeded(seed),
    {
        Xoroshiro { seed0: seed, seed1: XOROSHIRO_CONST }
    }

    pub fn next_u64(&mut self) -> (r: u64)
        ensures
            r == output(*old(self)),
            *final(self) == step(*old(self)),
    {
        let result = self.seed0.wrapping_add(self.seed1);
        let s0 = self.seed0;
        let s1 = self.seed1 ^ s0;
        self.seed0 = ((s0 << 24u64) | (s0 >> 40u64)) ^ s1 ^ (s1 << 16u64);
        self.seed1 = (s1 << 37u64) | (s1 >> 27u64);
        result
    }

    pub fn next(&mut self) -> (r: u32)
        ensures
            r == output(*old(self)) as u32,
            *final(self) == step(*old(self)),
    {
        self.next_u64() as u32
    }

    /// A uniform draw in `[0, max)` by rejection sampling.
    pub fn next_max(&mut self, max: u64) -> (r: u64)
        requires
            max > 0,
        ensures
            (r, *final(self)) == draw_below(*old(self), max),
            r < max,
    {
        let mask = Xoroshiro::get_bit_mask(max);
        let mut fuel: u64 = REJECTION_LIMIT;
        proof {
            lemma_sample_below_bound(*self, mask, max, fuel as nat);
        }
        loop
            invariant
                sample_below(*self, mask, max, fuel as nat) == draw_below(*old(self), max),
                mask == bit_mask(max),
                max > 0,
            decreases fuel,
        {
            let res = self.next_u64() & mask;
            if res < max {
                return res;
            }
            if fuel == 0 {
                return res % max;
            }
            fuel = fuel - 1;
        }
    }

    fn get_bit_mask(x: u64) -> (r: u64)
        requires
            x > 0,
        ensures
            r == bit_mask(x),
    {
        let mut m = x - 1;
        m = m | (m >> 1u64);
        m = m | (m >> 2u64);
        m = m | (m >> 4u64);
        m = m | (m >> 8u64);
        m = m | (m >> 16u64);
        m
    }
}

} // verus!
