//! Rolling one spawned entity from its seeds and its slot table.

use vstd::prelude::*;
use crate::xoroshiro::{draw_below, nth, seeded, step, Xoroshiro};

verus! {

/// Gender ratio of a species that has no gender.
pub const RATIO_MAGIC_GENDERLESS: usize = 255;

/// Gender ratio of a female-only species.
pub const RATIO_MAGIC_FEMALE: usize = 254;

/// Gender ratio of a male-only species.
pub const RATIO_MAGIC_MALE: usize = 0;

/// Bound of the 32-bit draws (encryption constant, trainer id, PID).
pub const U32_DRAW: u64 = 0xFFFF_FFFF;

/// The species whose single-species outbreaks spawn its form 2.
pub const BASCULIN: u16 = 550;

#[derive(Copy, Clone, Debug, PartialEq, Eq, Structural)]
pub enum SpawnType {
    Regular,
    MMO,
    Outbreak,
}

impl SpawnType {
    /// PID draws allowed per entity before it settles for a non-shiny one.
    pub open spec fn rolls_spec(self) -> nat {
        match self {
            SpawnType::Regular => 7,
            SpawnType::MMO => 19,
            SpawnType::Outbreak => 32,
        }
    }

    pub fn shiny_rolls(self) -> (r: usize)
        ensures
            r == self.rolls_spec(),
    {
        match self {
            SpawnType::Regular => 7,
            SpawnType::MMO => 19,
            SpawnType::Outbreak => 32,
        }
    }
}

/// One weighted entry of a spawn table.
#[derive(Clone, Debug, Default)]
pub struct SlotDetail {
    pub rate: usize,
    pub name: String,
    pub is_alpha: bool,
    pub level: Option<[usize; 2]>,
    pub flawless_ivs: usize,
    pub species: u16,
    pub form: u16,
    /// Gender ratio of the species and form (0 to 255, with the three
    /// `RATIO_MAGIC_*` values for fixed genders).
    pub gender_ratio: usize,
}

impl SlotDetail {
    pub open spec fn min_level_spec(&self) -> usize {
        match self.level {
            Some(l) => l[0],
            None => 0,
        }
    }

    pub open spec fn max_level_spec(&self) -> usize {
        match self.level {
            Some(l) => l[1],
            None => 0,
        }
    }

    /// The level range is ordered and its width can be drawn from.
    pub open spec fn wf(&self) -> bool {
        self.min_level_spec() <= self.max_level_spec() < 0xFFFF_FFFF
    }

    pub fn min_level(&self) -> (r: usize)
        ensures
            r == self.min_level_spec(),
    {
        match &self.level {
            Some(l) => l[0],
            None => 0,
        }
    }

    pub fn max_level(&self) -> (r: usize)
        ensures
            r == self.max_level_spec(),
    {
        match &self.level {
            Some(l) => l[1],
            None => 0,
        }
    }

    /// Whether the slot's species flees (is "skittish"), by the given list.
    pub fn is_skittish(&self, skittish: &Vec<u16>) -> (r: bool)
        ensures
            r == skittish@.contains(self.species),
    {
        contains_species(skittish, self.species)
    }
}

/// A copy of `slot` with an equal view of every field.
pub open spec fn same_slot(a: SlotDetail, b: SlotDetail) -> bool {
    &&& a.rate == b.rate
    &&& a.name@ == b.name@
    &&& a.is_alpha == b.is_alpha
    &&& a.level == b.level
    &&& a.flawless_ivs == b.flawless_ivs
    &&& a.species == b.species
    &&& a.form == b.form
    &&& a.gender_ratio == b.gender_ratio
}

fn copy_slot(s: &SlotDetail) -> (r: SlotDetail)
    ensures
        same_slot(r, *s),
{
    SlotDetail {
        rate: s.rate,
        name: s.name.clone(),
        is_alpha: s.is_alpha,
        level: s.level,
        flawless_ivs: s.flawless_ivs,
        species: s.species,
        form: s.form,
        gender_ratio: s.gender_ratio,
    }
}

pub fn contains_species(list: &Vec<u16>, species: u16) -> (r: bool)
    ensures
        r == list@.contains(species),
{
    let mut i: usize = 0;
    while i < list.len()
        invariant
            i <= list@.len(),
            forall|j: int| 0 <= j < i ==> list@[j] != species,
        decreases list@.len() - i,
    {
        if list[i] == species {
            proof {
                assert(list@[i as int] == species);
            }
            return true;
        }
        i = i + 1;
    }
    false
}

/// Everything that was rolled for one entity.
#[derive(Clone, Debug, Default)]
pub struct EntityResult {
    pub slot: SlotDetail,
    pub ivs: [u8; 6],
    pub group_seed: u64,
    pub index: usize,
    pub slot_seed: u64,
    pub gen_seed: u64,
    pub alpha_seed: u64,
    pub level: usize,
    pub ec: u32,
    pub fake_tid: u32,
    pub pid: u32,
    pub shiny_xor: u32,
    pub roll_count_used: usize,
    pub roll_count_allowed: usize,
    pub species: u16,
    pub form: u16,
    pub is_shiny: bool,
    pub is_alpha: bool,
    pub ability: u8,
    pub gender: u8,
    pub nature: u8,
    pub height: u8,
    pub weight: u8,
}

impl EntityResult {
    pub fn is_oblivious(&self, oblivious: &Vec<u16>) -> (r: bool)
        ensures
            r == oblivious@.contains(self.species),
    {
        contains_species(oblivious, self.species)
    }

    pub fn is_skittish(&self, skittish: &Vec<u16>) -> (r: bool)
        ensures
            r == skittish@.contains(self.species),
    {
        contains_species(skittish, self.species)
    }

    pub fn is_aggressive(&self, skittish: &Vec<u16>, oblivious: &Vec<u16>) -> (r: bool)
        ensures
            r == (self.is_alpha || !(skittish@.contains(self.species) || oblivious@.contains(
                self.species,
            ))),
    {
        self.is_alpha || !(self.is_skittish(skittish) || self.is_oblivious(oblivious))
    }
}

/// The low 16 bits of `pid ^ tid` folded onto its high half; below 16 means shiny.
pub open spec fn shiny_xor_spec(pid: u32, tid: u32) -> u32 {
    let x = pid ^ tid;
    (x ^ (x >> 16u32)) & 0xFFFFu32
}

pub open spec fn is_shiny_pair(pid: u32, tid: u32) -> bool {
    shiny_xor_spec(pid, tid) < 16
}

/// PID draws: stop at the first shiny one or when no roll remains.
/// Gives the PID kept, the number of draws made, and the generator after them.
pub open spec fn pid_roll(x: Xoroshiro, tid: u32, remaining: nat, used: nat) -> (u32, nat, Xoroshiro)
    decreases remaining,
{
    let pid = draw_below(x, U32_DRAW).0 as u32;
    let next = draw_below(x, U32_DRAW).1;
    if is_shiny_pair(pid, tid) || remaining == 0 {
        (pid, used + 1, next)
    } else {
        pid_roll(next, tid, (remaining - 1) as nat, used + 1)
    }
}

/// Extra draws after the first, for a budget of `rolls`.
pub open spec fn extra_rolls(rolls: nat) -> nat {
    if rolls > 0 { (rolls - 1) as nat } else { 0 }
}

pub proof fn lemma_pid_roll_used(x: Xoroshiro, tid: u32, remaining: nat, used: nat)
    ensures
        used < pid_roll(x, tid, remaining, used).1 <= used + remaining + 1,
    decreases remaining,
{
    let pid = draw_below(x, U32_DRAW).0 as u32;
    if !(is_shiny_pair(pid, tid) || remaining == 0) {
        lemma_pid_roll_used(draw_below(x, U32_DRAW).1, tid, (remaining - 1) as nat, used + 1);
    }
}

/// Draws a stat position until an unset one comes up; after `fuel`
/// redraws the last position drawn is kept. Gives the position and the
/// generator after it.
pub open spec fn pick_unset(x: Xoroshiro, ivs: Seq<u8>, fuel: nat) -> (u64, Xoroshiro)
    decreases fuel,
{
    let d = draw_below(x, 6).0;
    let next = draw_below(x, 6).1;
    if ivs[d as int] == 0 || fuel == 0 {
        (d, next)
    } else {
        pick_unset(next, ivs, (fuel - 1) as nat)
    }
}

/// Sets `k` more stats to 31, each at a freshly picked unset position.
pub open spec fn set_flawless(x: Xoroshiro, ivs: Seq<u8>, k: nat) -> (Seq<u8>, Xoroshiro)
    decreases k,
{
    if k == 0 {
        (ivs, x)
    } else {
        let p = pick_unset(x, ivs, crate::xoroshiro::REJECTION_LIMIT as nat);
        set_flawless(p.1, ivs.update(p.0 as int, 31u8), (k - 1) as nat)
    }
}

/// Draws every stat from position `i` on that is still unset.
pub open spec fn fill_ivs(x: Xoroshiro, ivs: Seq<u8>, i: nat) -> (Seq<u8>, Xoroshiro)
    decreases 6 - i,
{
    if i >= 6 {
        (ivs, x)
    } else if ivs[i as int] == 0 {
        let v = draw_below(x, 32);
        fill_ivs(v.1, ivs.update(i as int, v.0 as u8), i + 1)
    } else {
        fill_ivs(x, ivs, i + 1)
    }
}

/// The IVs rolled from `x` with `flawless` of them at 31, and the generator after them.
pub open spec fn ivs_roll(x: Xoroshiro, flawless: nat) -> (Seq<u8>, Xoroshiro) {
    let f = set_flawless(x, seq![0u8, 0u8, 0u8, 0u8, 0u8, 0u8], flawless);
    fill_ivs(f.1, f.0, 0)
}

/// Gender from the ratio: fixed for the three special ratios, else drawn.
pub open spec fn gender_roll(x: Xoroshiro, gender_ratio: usize) -> (u8, Xoroshiro) {
    if gender_ratio == RATIO_MAGIC_GENDERLESS {
        (2, x)
    } else if gender_ratio == RATIO_MAGIC_FEMALE {
        (1, x)
    } else if gender_ratio == RATIO_MAGIC_MALE {
        (0, x)
    } else {
        let g = draw_below(x, 253);
        (if g.0 + 1 < gender_ratio { 1u8 } else { 0u8 }, g.1)
    }
}

/// One size byte: an alpha's is the maximum, else two draws summed.
pub open spec fn size_roll(x: Xoroshiro, alpha: bool) -> (u8, Xoroshiro) {
    if alpha {
        (255, x)
    } else {
        let a = draw_below(x, 0x81);
        let b = draw_below(a.1, 0x80);
        ((a.0 + b.0) as u8, b.1)
    }
}

/// The generator after the encryption constant and the trainer id were drawn.
pub open spec fn after_ids(seed: u64) -> Xoroshiro {
    draw_below(draw_below(seeded(seed), U32_DRAW).1, U32_DRAW).1
}

/// What the attribute roll from `seed` gives, with a budget of
/// `shiny_rolls` PID draws and the given gender ratio.
pub open spec fn rolled(
    r: EntityResult,
    seed: u64,
    shiny_rolls: nat,
    flawless: nat,
    gender_ratio: usize,
) -> bool {
    let ec = draw_below(seeded(seed), U32_DRAW).0;
    let tid = draw_below(draw_below(seeded(seed), U32_DRAW).1, U32_DRAW).0;
    let roll = pid_roll(after_ids(seed), tid as u32, extra_rolls(shiny_rolls), 0);
    let ivs = ivs_roll(roll.2, flawless);
    let ability = draw_below(ivs.1, 2);
    let gender = gender_roll(ability.1, gender_ratio);
    let nature = draw_below(gender.1, 25);
    let height = size_roll(nature.1, r.is_alpha);
    let weight = size_roll(height.1, r.is_alpha);
    &&& forall|i: int| 0 <= i < 6 ==> r.ivs[i] == ivs.0[i]
    &&& r.ability == ability.0 as u8
    &&& r.gender == gender.0
    &&& r.nature == nature.0 as u8
    &&& r.height == height.0
    &&& r.weight == weight.0
    &&& r.ec == ec as u32
    &&& r.fake_tid == tid as u32
    &&& r.pid == roll.0
    &&& r.is_shiny == is_shiny_pair(r.pid, r.fake_tid)
    &&& r.is_shiny ==> {
        &&& r.shiny_xor == shiny_xor_spec(r.pid, r.fake_tid)
        &&& r.roll_count_used == roll.1
        &&& r.roll_count_allowed == shiny_rolls
    }
    &&& 1 <= roll.1 <= if shiny_rolls > 0 { shiny_rolls } else { 1 }
    &&& forall|i: int| 0 <= i < 6 ==> r.ivs[i] <= 31
    &&& r.ability < 2
    &&& gender_ratio == RATIO_MAGIC_GENDERLESS ==> r.gender == 2
    &&& gender_ratio == RATIO_MAGIC_FEMALE ==> r.gender == 1
    &&& gender_ratio == RATIO_MAGIC_MALE ==> r.gender == 0
    &&& r.gender <= 2
    &&& r.nature < 25
    &&& r.is_alpha ==> r.height == 255 && r.weight == 255
}

/// `rolled`, with every field that the roll does not write kept from `old_r`.
pub open spec fn rolled_from(
    r: EntityResult,
    old_r: EntityResult,
    seed: u64,
    shiny_rolls: nat,
    flawless: nat,
    gender_ratio: usize,
) -> bool {
    &&& rolled(r, seed, shiny_rolls, flawless, gender_ratio)
    &&& !r.is_shiny ==> {
        &&& r.shiny_xor == old_r.shiny_xor
        &&& r.roll_count_used == old_r.roll_count_used
        &&& r.roll_count_allowed == old_r.roll_count_allowed
    }
    &&& r.is_alpha == old_r.is_alpha
    &&& r.species == old_r.species
    &&& r.form == old_r.form
    &&& r.level == old_r.level
    &&& r.group_seed == old_r.group_seed
    &&& r.index == old_r.index
    &&& r.slot_seed == old_r.slot_seed
    &&& r.gen_seed == old_r.gen_seed
    &&& r.alpha_seed == old_r.alpha_seed
    &&& same_slot(r.slot, old_r.slot)
}

/// An entity is shiny exactly when its PID and trainer id fold below 16,
/// and a shiny one never used more PID draws than its budget allowed.
pub proof fn lemma_shiny_determination(
    r: EntityResult,
    seed: u64,
    shiny_rolls: nat,
    flawless: nat,
    gender_ratio: usize,
)
    requires
        rolled(r, seed, shiny_rolls, flawless, gender_ratio),
        shiny_rolls >= 1,
    ensures
        r.is_shiny <==> ((r.pid ^ r.fake_tid) ^ ((r.pid ^ r.fake_tid) >> 16u32)) & 0xFFFFu32 < 16,
        r.is_shiny ==> 1 <= r.roll_count_used <= shiny_rolls,
{
}

pub fn get_shiny_xor(pid: u32, oid: u32) -> (r: u32)
    ensures
        r == shiny_xor_spec(pid, oid),
{
    let xor = pid ^ oid;
    (xor ^ (xor >> 16u32)) & 0xFFFFu32
}

/// Rolls the attributes of an entity from `seed`: encryption constant,
/// trainer id, PID with up to `shiny_rolls` shiny attempts, IVs with
/// `flawless` of them at 31, ability, gender, nature, then size.
pub fn generate_pokemon(
    result: &mut EntityResult,
    seed: u64,
    shiny_rolls: usize,
    flawless: usize,
    gender_ratio: usize,
)
    ensures
        rolled_from(*final(result), *old(result), seed, shiny_rolls as nat, flawless as nat, gender_ratio),
{
    let mut rng = Xoroshiro::new(seed);
    result.ec = rng.next_max(U32_DRAW) as u32;
    result.fake_tid = rng.next_max(U32_DRAW) as u32;
    let tid = result.fake_tid;

    let ghost start = rng;
    let ghost target = pid_roll(start, tid, extra_rolls(shiny_rolls as nat), 0);
    let mut remaining: usize = if shiny_rolls > 0 { shiny_rolls - 1 } else { 0 };
    let mut ctr: usize = 0;
    let mut pid: u32 = 0;
    let mut is_shiny = false;
    let mut shiny_xor: u32 = 0;
    proof {
        lemma_pid_roll_used(start, tid, extra_rolls(shiny_rolls as nat), 0);
    }
    loop
        invariant_except_break
            pid_roll(rng, tid, remaining as nat, ctr as nat) == target,
            ctr + remaining == extra_rolls(shiny_rolls as nat),
        ensures
            pid == target.0,
            ctr == target.1,
            rng == target.2,
            shiny_xor == shiny_xor_spec(pid, tid),
            is_shiny == is_shiny_pair(pid, tid),
        decreases remaining,
    {
        pid = rng.next_max(U32_DRAW) as u32;
        ctr = ctr + 1;
        shiny_xor = get_shiny_xor(pid, tid);
        is_shiny = shiny_xor < 16;
        if is_shiny || remaining == 0 {
            break;
        }
        remaining = remaining - 1;
    }
    result.is_shiny = is_shiny;
    if is_shiny {
        result.shiny_xor = shiny_xor;
        result.roll_count_used = ctr;
        result.roll_count_allowed = shiny_rolls;
    }
    result.pid = pid;

    let mut ivs: Vec<u8> = vec![0u8, 0u8, 0u8, 0u8, 0u8, 0u8];
    let ghost ivs_target = ivs_roll(rng, flawless as nat);
    proof {
        assert(ivs@ =~= seq![0u8, 0u8, 0u8, 0u8, 0u8, 0u8]);
    }
    let mut k: usize = 0;
    while k < flawless
        invariant
            ivs@.len() == 6,
            k <= flawless,
            forall|i: int| 0 <= i < 6 ==> ivs@[i] <= 31,
            fill_ivs(set_flawless(rng, ivs@, (flawless - k) as nat).1, set_flawless(rng, ivs@, (flawless - k) as nat).0, 0) == ivs_target,
        decreases flawless - k,
    {
        let ghost before = rng;
        let ghost target = pick_unset(before, ivs@, crate::xoroshiro::REJECTION_LIMIT as nat);
        let mut index = rng.next_max(6) as usize;
        let mut fuel: u64 = crate::xoroshiro::REJECTION_LIMIT;
        loop
            invariant_except_break
                index < 6,
                ivs@.len() == 6,
                target == (if ivs@[index as int] == 0 || fuel == 0 {
                    (index as u64, rng)
                } else {
                    pick_unset(rng, ivs@, (fuel - 1) as nat)
                }),
            ensures
                index < 6,
                target == (index as u64, rng),
            decreases fuel,
        {
            if ivs[index] == 0 || fuel == 0 {
                break;
            }
            fuel = fuel - 1;
            index = rng.next_max(6) as usize;
        }
        ivs.set(index, 31);
        k = k + 1;
    }
    let mut i: usize = 0;
    while i < 6
        invariant
            ivs@.len() == 6,
            i <= 6,
            forall|j: int| 0 <= j < 6 ==> ivs@[j] <= 31,
            fill_ivs(rng, ivs@, i as nat) == ivs_target,
        decreases 6 - i,
    {
        if ivs[i] == 0 {
            let v = rng.next_max(32) as u8;
            ivs.set(i, v);
        }
        i = i + 1;
    }
    proof {
        assert(ivs@ == ivs_target.0);
    }
    result.ivs = [ivs[0], ivs[1], ivs[2], ivs[3], ivs[4], ivs[5]];

    result.ability = rng.next_max(2) as u8;
    result.gender = if gender_ratio == RATIO_MAGIC_GENDERLESS {
        2
    } else if gender_ratio == RATIO_MAGIC_FEMALE {
        1
    } else if gender_ratio == RATIO_MAGIC_MALE {
        0
    } else if ((rng.next_max(253) as usize) + 1) < gender_ratio {
        1
    } else {
        0
    };
    result.nature = rng.next_max(25) as u8;
    result.height = if result.is_alpha {
        255
    } else {
        (rng.next_max(0x81) + rng.next_max(0x80)) as u8
    };
    result.weight = if result.is_alpha {
        255
    } else {
        (rng.next_max(0x81) + rng.next_max(0x80)) as u8
    };
}

/// Whether the slot may be picked when alphas are excluded or not.
pub open spec fn eligible(s: SlotDetail, no_alpha: bool) -> bool {
    !(no_alpha && s.is_alpha)
}

/// Some pickable slot has a positive weight.
pub open spec fn has_weight(slots: Seq<SlotDetail>, no_alpha: bool) -> bool {
    exists|i: int| 0 <= i < slots.len() && eligible(#[trigger] slots[i], no_alpha) && slots[i].rate > 0
}

/// The level drawn for `slot` from the slot generator `rng`.
pub open spec fn level_spec(slot: SlotDetail, rng: Xoroshiro) -> usize {
    let min = slot.min_level_spec();
    let delta = slot.max_level_spec() - min;
    if delta != 0 {
        (min + draw_below(rng, (delta + 1) as u64).0) as usize
    } else {
        min
    }
}

pub fn get_level(slot: &SlotDetail, slot_rng: Xoroshiro) -> (r: usize)
    requires
        slot.wf(),
    ensures
        r == level_spec(*slot, slot_rng),
{
    let mut rng = slot_rng;
    let min = slot.min_level();
    let max = slot.max_level();
    let delta = max - min;
    if delta != 0 {
        let extra = rng.next_max(delta as u64 + 1);
        min + extra as usize
    } else {
        min
    }
}

/// What `generate` promises of an entity it rolled from `slot`.
pub open spec fn generated_from(
    e: EntityResult,
    group_seed: u64,
    index: usize,
    seed: u64,
    alpha_seed: u64,
    slot: SlotDetail,
    spawn_type: SpawnType,
) -> bool {
    let gen_seed = nth(seeded(seed), 1);
    &&& e.group_seed == group_seed
    &&& e.index == index
    &&& e.slot_seed == seed
    &&& e.alpha_seed == alpha_seed
    &&& e.gen_seed == gen_seed
    &&& same_slot(e.slot, slot)
    &&& e.species == slot.species
    &&& e.form == slot.form
    &&& e.is_alpha == slot.is_alpha
    &&& e.level == level_spec(slot, step(step(seeded(seed))))
    &&& rolled(e, gen_seed, spawn_type.rolls_spec(), slot.flawless_ivs as nat, slot.gender_ratio)
    &&& !e.is_shiny ==> e.shiny_xor == 0 && e.roll_count_used == 0 && e.roll_count_allowed == 0
}

/// Generation is deterministic: two entities rolled at the same index from
/// the same seeds and slot agree on every rolled attribute.
pub proof fn lemma_generation_deterministic(
    a: EntityResult,
    b: EntityResult,
    group_seed: u64,
    index: usize,
    seed: u64,
    alpha_seed: u64,
    slot: SlotDetail,
    spawn_type: SpawnType,
)
    requires
        generated_from(a, group_seed, index, seed, alpha_seed, slot, spawn_type),
        generated_from(b, group_seed, index, seed, alpha_seed, slot, spawn_type),
    ensures
        a.slot_seed == b.slot_seed,
        a.gen_seed == b.gen_seed,
        a.alpha_seed == b.alpha_seed,
        a.level == b.level,
        a.ec == b.ec,
        a.fake_tid == b.fake_tid,
        a.pid == b.pid,
        a.is_shiny == b.is_shiny,
        a.shiny_xor == b.shiny_xor,
        a.roll_count_used == b.roll_count_used,
        forall|i: int| 0 <= i < 6 ==> a.ivs[i] == b.ivs[i],
        a.ability == b.ability && a.gender == b.gender && a.nature == b.nature,
        a.height == b.height && a.weight == b.weight,
        a.species == b.species && a.form == b.form && a.is_alpha == b.is_alpha,
{
    let gen_seed = nth(seeded(seed), 1);
    let tid = draw_below(draw_below(seeded(gen_seed), U32_DRAW).1, U32_DRAW).0;
    let roll = pid_roll(after_ids(gen_seed), tid as u32, extra_rolls(spawn_type.rolls_spec()), 0);
    let ivs = ivs_roll(roll.2, slot.flawless_ivs as nat);
    assert forall|i: int| 0 <= i < 6 implies a.ivs[i] == b.ivs[i] by {
        assert(a.ivs[i] == ivs.0[i]);
        assert(b.ivs[i] == ivs.0[i]);
    }
}

/// Rolls the entity at `index` of a respawn from its slot seed `seed`.
/// `roll` picks the slot from the first draw of the slot generator (it
/// owns the weighted, floating-point part of the pick) and returns its
/// position in `slots`. No entity comes out of a table without weight, nor
/// when `roll` answers with a position that is out of range or excluded.
pub fn generate<R: Fn(u64, &Vec<SlotDetail>, bool) -> usize>(
    group_seed: u64,
    index: usize,
    seed: u64,
    alpha_seed: u64,
    slots: &Vec<SlotDetail>,
    spawn_type: SpawnType,
    no_alpha: bool,
    roll: &R,
) -> (r: Option<EntityResult>)
    requires
        forall|i: int| 0 <= i < slots@.len() ==> (#[trigger] slots@[i]).wf(),
        forall|d: u64, t: &Vec<SlotDetail>, n: bool| roll.requires((d, t, n)),
    ensures
        r matches Some(e) ==> e.group_seed == group_seed && e.index == index && e.slot_seed == seed
            && e.alpha_seed == alpha_seed,
        !has_weight(slots@, no_alpha) ==> r.is_none(),
        has_weight(slots@, no_alpha) && (forall|i: usize|
            #[trigger] roll.ensures((nth(seeded(seed), 0), slots, no_alpha), i) ==> i < slots@.len()
                && eligible(slots@[i as int], no_alpha)) ==> r.is_some(),
        r matches Some(e) ==> exists|i: usize|
            #[trigger] roll.ensures((nth(seeded(seed), 0), slots, no_alpha), i) && i < slots@.len()
                && eligible(slots@[i as int], no_alpha) && generated_from(
                e,
                group_seed,
                index,
                seed,
                alpha_seed,
                slots@[i as int],
                spawn_type,
            ),
{
    let mut weighted = false;
    let mut k: usize = 0;
    while k < slots.len()
        invariant
            k <= slots@.len(),
            weighted <==> exists|j: int| 0 <= j < k && eligible(#[trigger] slots@[j], no_alpha) && slots@[j].rate > 0,
        decreases slots@.len() - k,
    {
        if !(no_alpha && slots[k].is_alpha) && slots[k].rate > 0 {
            weighted = true;
        }
        k = k + 1;
    }
    if !weighted {
        return None;
    }
    let mut slot_rng = Xoroshiro::new(seed);
    let draw = slot_rng.next_u64();
    let pick = roll(draw, slots, no_alpha);
    if pick >= slots.len() || (no_alpha && slots[pick].is_alpha) {
        return None;
    }
    let slot = copy_slot(&slots[pick]);
    proof {
        assert(slots@[pick as int].wf());
    }
    let gen_seed = slot_rng.next_u64();
    let level = get_level(&slot, slot_rng);
    let gender_ratio = slot.gender_ratio;
    let flawless_ivs = slot.flawless_ivs;
    let mut result = EntityResult {
        species: slot.species,
        form: slot.form,
        level,
        ec: 0,
        fake_tid: 0,
        pid: 0,
        shiny_xor: 0,
        roll_count_used: 0,
        is_alpha: slot.is_alpha,
        ability: 0,
        gender: 0,
        nature: 0,
        height: 0,
        group_seed,
        index,
        slot_seed: seed,
        gen_seed,
        alpha_seed,
        ivs: [0u8, 0u8, 0u8, 0u8, 0u8, 0u8],
        roll_count_allowed: 0,
        is_shiny: false,
        weight: 0,
        slot,
    };
    generate_pokemon(&mut result, gen_seed, spawn_type.shiny_rolls(), flawless_ivs, gender_ratio);
    Some(result)
}

/// The two slots of a single-species outbreak of `species`: a common one
/// and a rare alpha with three flawless IVs.
pub fn get_fake_outbreak(species: u16, name: String, gender_ratio: usize) -> (r: Vec<SlotDetail>)
    ensures
        r@.len() == 2,
        r@[0].rate == 100 && !r@[0].is_alpha && r@[0].flawless_ivs == 0,
        r@[1].rate == 1 && r@[1].is_alpha && r@[1].flawless_ivs == 3,
        forall|i: int| 0 <= i < 2 ==> {
            &&& (#[trigger] r@[i]).species == species
            &&& r@[i].name@ == name@
            &&& r@[i].level == Some([0usize, 1usize])
            &&& r@[i].gender_ratio == gender_ratio
            &&& r@[i].form == if species == BASCULIN { 2u16 } else { 0u16 }
            &&& r@[i].wf()
        },
{
    let form: u16 = if species == BASCULIN { 2 } else { 0 };
    let common = SlotDetail {
        rate: 100,
        name: name.clone(),
        is_alpha: false,
        level: Some([0, 1]),
        flawless_ivs: 0,
        species,
        form,
        gender_ratio,
    };
    let alpha = SlotDetail {
        rate: 1,
        name,
        is_alpha: true,
        level: Some([0, 1]),
        flawless_ivs: 3,
        species,
        form,
        gender_ratio,
    };
    vec![common, alpha]
}

} // verus!
