//! Configured spawn points and the chain of waves between them.

use vstd::prelude::*;
use crate::generation::SpawnType;
use crate::spawn_state::SpawnState;
use crate::xoroshiro::{draw_below, output, seeded, Xoroshiro};

verus! {

/// State of a massive-outbreak spawner as the console reports it.
#[derive(Copy, Clone, Debug, PartialEq, Eq, Structural, PartialOrd, Ord, Default)]
pub enum MassiveOutbreakSpawnerStatus {
    #[default]
    Empty,
    Unrevealed,
    Normal,
    Star,
    Aguav,
}

impl MassiveOutbreakSpawnerStatus {
    /// The status stored as `num`; unknown values mean no spawner.
    pub open spec fn from_spec(num: u8) -> MassiveOutbreakSpawnerStatus {
        if num == 1 {
            MassiveOutbreakSpawnerStatus::Unrevealed
        } else if num == 2 {
            MassiveOutbreakSpawnerStatus::Normal
        } else if num == 3 {
            MassiveOutbreakSpawnerStatus::Star
        } else if num == 4 {
            MassiveOutbreakSpawnerStatus::Aguav
        } else {
            MassiveOutbreakSpawnerStatus::Empty
        }
    }

    pub fn from_byte(num: u8) -> (r: MassiveOutbreakSpawnerStatus)
        ensures
            r == Self::from_spec(num),
    {
        match num {
            1 => MassiveOutbreakSpawnerStatus::Unrevealed,
            2 => MassiveOutbreakSpawnerStatus::Normal,
            3 => MassiveOutbreakSpawnerStatus::Star,
            4 => MassiveOutbreakSpawnerStatus::Aguav,
            _ => MassiveOutbreakSpawnerStatus::Empty,
        }
    }
}

impl From<u8> for MassiveOutbreakSpawnerStatus {
    fn from(num: u8) -> (r: MassiveOutbreakSpawnerStatus) {
        MassiveOutbreakSpawnerStatus::from_byte(num)
    }
}

impl vstd::std_specs::convert::FromSpecImpl<u8> for MassiveOutbreakSpawnerStatus {
    open spec fn obeys_from_spec() -> bool {
        true
    }

    open spec fn from_spec(num: u8) -> MassiveOutbreakSpawnerStatus {
        MassiveOutbreakSpawnerStatus::from_spec(num)
    }
}

/// Where a spawn point draws its entities from: the table and how many
/// entities it gives out in total.
#[derive(Copy, Clone, Debug)]
pub struct SpawnSet {
    pub table: u64,
    pub count: usize,
}

/// How many entities a spawn point keeps alive, fixed or drawn between
/// `min_alive` and `max_alive` from its own count seed.
#[derive(Copy, Clone, Debug)]
pub struct SpawnCount {
    pub max_alive: usize,
    pub min_alive: usize,
    pub count_seed: u64,
}

/// Alive target of the outbreak kinds: always four.
pub const OUTBREAK_ALIVE: usize = 4;

impl SpawnCount {
    pub open spec fn wf(&self) -> bool {
        self.min_alive <= self.max_alive < 0xFFFF_FFFF
    }

    pub open spec fn is_fixed_spec(&self) -> bool {
        self.min_alive == 0 || self.min_alive == self.max_alive
    }

    /// The alive target drawn from `count_seed` (the fixed one when fixed).
    pub open spec fn drawn_count(&self) -> usize {
        if self.is_fixed_spec() {
            self.max_alive
        } else {
            (self.min_alive + draw_below(
                seeded(self.count_seed),
                (self.max_alive - self.min_alive + 1) as u64,
            ).0) as usize
        }
    }

    /// The count seed after a draw: a fixed count never draws.
    pub open spec fn seed_after_draw(&self) -> u64 {
        if self.is_fixed_spec() {
            self.count_seed
        } else {
            output(
                draw_below(seeded(self.count_seed), (self.max_alive - self.min_alive + 1) as u64).1,
            )
        }
    }

    pub fn is_fixed_count(&self) -> (r: bool)
        ensures
            r == self.is_fixed_spec(),
    {
        self.min_alive == 0 || self.min_alive == self.max_alive
    }

    pub fn get_next_count(&mut self) -> (r: usize)
        requires
            old(self).wf(),
        ensures
            r == old(self).drawn_count(),
            final(self).count_seed == old(self).seed_after_draw(),
            final(self).max_alive == old(self).max_alive,
            final(self).min_alive == old(self).min_alive,
            old(self).min_alive <= r <= old(self).max_alive,
    {
        if self.is_fixed_count() {
            self.max_alive
        } else {
            let mut rand = Xoroshiro::new(self.count_seed);
            let delta = self.max_alive - self.min_alive;
            let result = self.min_alive + rand.next_max(delta as u64 + 1) as usize;
            self.count_seed = rand.next_u64();
            result
        }
    }

    fn peek_next_count(&self) -> (r: usize)
        requires
            self.wf(),
            !self.is_fixed_spec(),
        ensures
            r == self.drawn_count(),
    {
        let mut rand = Xoroshiro::new(self.count_seed);
        let delta = self.max_alive - self.min_alive;
        self.min_alive + rand.next_max(delta as u64 + 1) as usize
    }

    /// Whether the next drawn target lets more entities spawn than the
    /// `current_max_alive` slots hold now.
    pub open spec fn can_spawn_more_spec(&self, current_max_alive: usize) -> bool {
        !self.is_fixed_spec() && (self.drawn_count() > current_max_alive || (self.drawn_count()
            == current_max_alive && self.drawn_count() != self.max_alive))
    }

    pub fn can_spawn_more(&self, current_max_alive: usize) -> (r: bool)
        requires
            self.wf(),
        ensures
            r == self.can_spawn_more_spec(current_max_alive),
    {
        if self.is_fixed_count() {
            false
        } else {
            let next_max_alive = self.peek_next_count();
            if next_max_alive > current_max_alive {
                true
            } else {
                next_max_alive == current_max_alive && next_max_alive != self.max_alive
            }
        }
    }
}

/// One configured spawn point. `next` is the position of the wave that
/// follows it in the same chain; `parent` is the position of the node that
/// leads to it (itself for a repeating spawner), kept for navigation only.
#[derive(Copy, Clone, Debug)]
pub struct SpawnInfo {
    pub count: SpawnCount,
    pub set: SpawnSet,
    pub spawn_type: SpawnType,
    pub parent: Option<usize>,
    pub next: Option<usize>,
}

/// The count policy of both outbreak kinds.
pub open spec fn outbreak_count() -> SpawnCount {
    SpawnCount { max_alive: OUTBREAK_ALIVE, min_alive: OUTBREAK_ALIVE, count_seed: 0 }
}

/// A chain of spawn points: every link stays inside it, and a wave that
/// follows another one never keeps the entities of the one before (only a
/// regular spawner does, and it repeats in place instead). A regular
/// spawner as a next wave would be entered without a step on the path, and
/// a search through it could go on forever.
#[verifier::opaque]
pub open spec fn chain_wf(nodes: Seq<SpawnInfo>) -> bool {
    forall|i: int|
        0 <= i < nodes.len() ==> {
            &&& (#[trigger] nodes[i]).count.wf()
            &&& nodes[i].next matches Some(j) ==> j < nodes.len() && nodes[j as int].spawn_type
                != SpawnType::Regular
        }
}

/// What `chain_wf` says of the node at `i`.
pub proof fn lemma_chain_at(nodes: Seq<SpawnInfo>, i: int)
    requires
        chain_wf(nodes),
        0 <= i < nodes.len(),
    ensures
        nodes[i].count.wf(),
        nodes[i].next matches Some(j) ==> j < nodes.len() && nodes[j as int].spawn_type != SpawnType::Regular,
{
    reveal(chain_wf);
}

impl SpawnInfo {
    pub fn no_multi_alpha(&self) -> (r: bool)
        ensures
            r == (self.spawn_type == SpawnType::Regular || self.spawn_type == SpawnType::Outbreak),
    {
        self.spawn_type == SpawnType::Regular || self.spawn_type == SpawnType::Outbreak
    }

    pub fn allow_ghosts(&self) -> (r: bool)
        ensures
            r == (self.spawn_type != SpawnType::Regular),
    {
        self.spawn_type != SpawnType::Regular
    }

    pub fn retain_existing(&self) -> (r: bool)
        ensures
            r == (self.spawn_type == SpawnType::Regular),
    {
        self.spawn_type == SpawnType::Regular
    }

    /// The position of the next wave, if there is one.
    pub fn get_next_wave(&self) -> (r: Option<usize>)
        ensures
            r == self.next,
    {
        self.next
    }

    /// A massive mass outbreak: the base wave at position 0, followed by the
    /// bonus wave at position 1.
    pub fn get_mmo(base_table: u64, base_count: usize, bonus_table: u64, bonus_count: usize) -> (r: Vec<SpawnInfo>)
        ensures
            r@.len() == 2,
            r@[0] == (SpawnInfo {
                count: outbreak_count(),
                set: SpawnSet { table: base_table, count: base_count },
                spawn_type: SpawnType::MMO,
                parent: None,
                next: Some(1),
            }),
            r@[1] == (SpawnInfo {
                count: outbreak_count(),
                set: SpawnSet { table: bonus_table, count: bonus_count },
                spawn_type: SpawnType::MMO,
                parent: Some(0),
                next: None,
            }),
            chain_wf(r@),
    {
        reveal(chain_wf);
        let base = SpawnInfo {
            count: SpawnCount { max_alive: OUTBREAK_ALIVE, min_alive: OUTBREAK_ALIVE, count_seed: 0 },
            set: SpawnSet { table: base_table, count: base_count },
            spawn_type: SpawnType::MMO,
            parent: None,
            next: Some(1),
        };
        let bonus = SpawnInfo {
            count: SpawnCount { max_alive: OUTBREAK_ALIVE, min_alive: OUTBREAK_ALIVE, count_seed: 0 },
            set: SpawnSet { table: bonus_table, count: bonus_count },
            spawn_type: SpawnType::MMO,
            parent: Some(0),
            next: None,
        };
        vec![base, bonus]
    }

    /// A massive mass outbreak without a bonus wave.
    pub fn get_mmo_base(base_table: u64, base_count: usize) -> (r: Vec<SpawnInfo>)
        ensures
            r@.len() == 1,
            r@[0] == (SpawnInfo {
                count: outbreak_count(),
                set: SpawnSet { table: base_table, count: base_count },
                spawn_type: SpawnType::MMO,
                parent: None,
                next: None,
            }),
            chain_wf(r@),
    {
        reveal(chain_wf);
        let base = SpawnInfo {
            count: SpawnCount { max_alive: OUTBREAK_ALIVE, min_alive: OUTBREAK_ALIVE, count_seed: 0 },
            set: SpawnSet { table: base_table, count: base_count },
            spawn_type: SpawnType::MMO,
            parent: None,
            next: None,
        };
        vec![base]
    }

    /// The state a spawn point starts from: a regular spawner draws its
    /// alive target, the others fill their slots from their set.
    pub open spec fn starting_state(&self) -> SpawnState {
        if self.spawn_type == SpawnType::Regular {
            SpawnState::get_spec(self.count.drawn_count(), self.count.drawn_count())
        } else {
            SpawnState::get_spec(self.set.count, self.count.max_alive)
        }
    }

    pub fn get_starting_state(&mut self) -> (r: SpawnState)
        requires
            old(self).count.wf(),
        ensures
            r == old(self).starting_state(),
            r.wf(),
            r.max_alive <= old(self).count.max_alive,
            final(self).count.count_seed == if old(self).spawn_type == SpawnType::Regular {
                old(self).count.seed_after_draw()
            } else {
                old(self).count.count_seed
            },
            final(self).count.max_alive == old(self).count.max_alive,
            final(self).count.min_alive == old(self).count.min_alive,
            final(self).set == old(self).set,
            final(self).spawn_type == old(self).spawn_type,
            final(self).parent == old(self).parent,
            final(self).next == old(self).next,
    {
        if self.spawn_type == SpawnType::Regular {
            let n = self.count.get_next_count();
            SpawnState::get_basic(n)
        } else {
            SpawnState::get(self.set.count, self.count.max_alive)
        }
    }

    /// A single-species mass outbreak.
    pub fn get_mo(table: u64, count: usize) -> (r: Vec<SpawnInfo>)
        ensures
            r@.len() == 1,
            r@[0] == (SpawnInfo {
                count: outbreak_count(),
                set: SpawnSet { table, count },
                spawn_type: SpawnType::Outbreak,
                parent: None,
                next: None,
            }),
            chain_wf(r@),
    {
        reveal(chain_wf);
        let node = SpawnInfo {
            count: SpawnCount { max_alive: OUTBREAK_ALIVE, min_alive: OUTBREAK_ALIVE, count_seed: 0 },
            set: SpawnSet { table, count },
            spawn_type: SpawnType::Outbreak,
            parent: None,
            next: None,
        };
        vec![node]
    }

    /// A spawner that repeats in place: its own parent, with no next wave.
    pub fn get_loop(count: SpawnCount, set: SpawnSet, spawn_type: SpawnType) -> (r: Vec<SpawnInfo>)
        ensures
            r@.len() == 1,
            r@[0] == (SpawnInfo { count, set, spawn_type, parent: Some(0), next: None }),
            count.wf() ==> chain_wf(r@),
    {
        reveal(chain_wf);
        vec![SpawnInfo { count, set, spawn_type, parent: Some(0), next: None }]
    }
}

} // verus!
