//! Seeds derived from a group seed.

use vstd::prelude::*;
use crate::advance::{type_count, Advance};
use crate::xoroshiro::{advance, nth, output, seeded, step, Xoroshiro};

verus! {

/// The group seed reached from `seed` once `count` slots were drawn for:
/// two draws per slot, then the next draw.
pub open spec fn group_seed_after(seed: u64, count: nat) -> u64 {
    nth(seeded(seed), 2 * count)
}

/// The group seed reached after the four initial spawns and then each
/// advance of `path` in turn.
pub open spec fn group_seed_along(seed: u64, path: Seq<Advance>) -> u64
    decreases path.len(),
{
    if path.len() == 0 {
        group_seed_after(seed, 4)
    } else {
        group_seed_after(
            group_seed_along(seed, path.drop_last()),
            type_count(path.last().advance_type),
        )
    }
}

/// The sub-seed and alpha-move seed of the spawn at `index` (counting from 1).
pub open spec fn generate_seeds(group_seed: u64, index: nat) -> (u64, u64) {
    (nth(seeded(group_seed), 2 * (index - 1) as nat), nth(seeded(group_seed), 2 * (index - 1) as nat + 1))
}

/// The seed that rolls the attributes of the spawn at `index`.
pub open spec fn entity_seed(group_seed: u64, index: nat) -> u64 {
    nth(seeded(generate_seeds(group_seed, index).0), 1)
}

/// Drawing once more moves from `n` draws to `n + 1`.
pub proof fn lemma_advance_step(x: Xoroshiro, n: nat)
    ensures
        step(advance(x, n)) == advance(x, n + 1),
        output(advance(x, n)) == nth(x, n),
{
}

/// Skips `count` draws.
fn skip(rng: &mut Xoroshiro, count: usize, Ghost(start): Ghost<Xoroshiro>, Ghost(done): Ghost<nat>)
    requires
        *old(rng) == advance(start, done),
    ensures
        *final(rng) == advance(start, (done + count) as nat),
{
    let mut i: usize = 0;
    while i < count
        invariant
            i <= count,
            *rng == advance(start, (done + i) as nat),
        decreases count - i,
    {
        proof {
            lemma_advance_step(start, (done + i) as nat);
        }
        rng.next_u64();
        i = i + 1;
    }
}

pub fn get_group_seed(seed: u64, count: usize) -> (r: u64)
    ensures
        r == group_seed_after(seed, count as nat),
{
    let mut rng = Xoroshiro::new(seed);
    let ghost start = seeded(seed);
    let mut i: usize = 0;
    while i < count
        invariant
            i <= count,
            start == seeded(seed),
            rng == advance(start, 2 * i as nat),
        decreases count - i,
    {
        proof {
            lemma_advance_step(start, 2 * i as nat);
            lemma_advance_step(start, 2 * i as nat + 1);
        }
        rng.next_u64();
        rng.next_u64();
        i = i + 1;
    }
    proof {
        lemma_advance_step(start, 2 * count as nat);
    }
    rng.next_u64()
}

pub fn get_group_seed_from_advances(group_seed: u64, advances: &[Advance]) -> (r: u64)
    ensures
        r == group_seed_along(group_seed, advances@),
{
    let mut seed = get_group_seed(group_seed, 4);
    let mut i: usize = 0;
    proof {
        assert(advances@.subrange(0, 0) =~= Seq::<Advance>::empty());
    }
    while i < advances.len()
        invariant
            i <= advances@.len(),
            seed == group_seed_along(group_seed, advances@.subrange(0, i as int)),
        decreases advances@.len() - i,
    {
        let count = advances[i].advance_count();
        seed = get_group_seed(seed, count);
        proof {
            let next = advances@.subrange(0, i + 1);
            assert(next.drop_last() =~= advances@.subrange(0, i as int));
        }
        i = i + 1;
    }
    proof {
        assert(advances@.subrange(0, advances@.len() as int) =~= advances@);
    }
    seed
}

pub fn get_generate_seed(group_seed: u64, spawn_index: usize) -> (r: (u64, u64))
    requires
        1 <= spawn_index <= usize::MAX / 2,
    ensures
        r == generate_seeds(group_seed, spawn_index as nat),
{
    let mut rng = Xoroshiro::new(group_seed);
    skip(&mut rng, 2 * (spawn_index - 1), Ghost(seeded(group_seed)), Ghost(0));
    proof {
        lemma_advance_step(seeded(group_seed), 2 * (spawn_index - 1) as nat);
    }
    let sub_seed = rng.next_u64();
    let alpha = rng.next_u64();
    (sub_seed, alpha)
}

pub fn get_entity_seed(group_seed: u64, spawn_index: usize) -> (r: u64)
    requires
        1 <= spawn_index <= usize::MAX / 2,
    ensures
        r == entity_seed(group_seed, spawn_index as nat),
{
    let (sub_seed, _alpha) = get_generate_seed(group_seed, spawn_index);
    let mut poke = Xoroshiro::new(sub_seed);
    poke.next_u64();
    proof {
        lemma_advance_step(seeded(sub_seed), 0);
        assert(advance(seeded(sub_seed), 0) == seeded(sub_seed));
    }
    poke.next_u64()
}

/// Deriving a spawn's seeds is a function of the group seed and the index
/// alone: two derivations from equal inputs agree.
pub proof fn lemma_spawn_seeds_deterministic(seed_a: u64, seed_b: u64, index: nat)
    requires
        seed_a == seed_b,
        index >= 1,
    ensures
        generate_seeds(seed_a, index) == generate_seeds(seed_b, index),
        entity_seed(seed_a, index) == entity_seed(seed_b, index),
{
}

} // verus!
