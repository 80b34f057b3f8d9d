//! The depth-first search over player actions.

use vstd::prelude::*;
use crate::advance::{Advance, AdvanceType};
use crate::calculations::{generate_seeds, get_group_seed, group_seed_after};
use crate::generation::{eligible, generate, has_weight, EntityResult, SlotDetail, SpawnType};
use crate::spawn_info::{chain_wf, lemma_chain_at, SpawnInfo};
use crate::spawn_state::{min_nat, SpawnState};
use crate::xoroshiro::{advance, nth, seeded, Xoroshiro};

verus! {

/// The slots of one spawn table.
#[derive(Clone, Debug)]
pub struct SlotTable {
    pub table: u64,
    pub slots: Vec<SlotDetail>,
}

/// Reference data the search reads: the slot tables, and the species that
/// flee (skittish) or ignore the player (oblivious). A table is found by its
/// id; where two share an id, the first one is read.
#[derive(Clone, Debug)]
pub struct SpawnData {
    pub tables: Vec<SlotTable>,
    pub skittish: Vec<u16>,
    pub oblivious: Vec<u16>,
}

pub open spec fn data_wf(d: SpawnData) -> bool {
    forall|t: int, i: int|
        0 <= t < d.tables@.len() && 0 <= i < d.tables@[t].slots@.len() ==> (
        #[trigger] d.tables@[t].slots@[i]).wf()
}

/// Some slot table has the id `table`.
pub open spec fn has_table(d: SpawnData, table: u64) -> bool {
    exists|t: int| 0 <= t < d.tables@.len() && (#[trigger] d.tables@[t]).table == table
}

/// `t` is the first position of a table with the id `table`.
pub open spec fn is_first_table(d: SpawnData, table: u64, t: int) -> bool {
    &&& 0 <= t < d.tables@.len()
    &&& d.tables@[t].table == table
    &&& forall|j: int| 0 <= j < t ==> (#[trigger] d.tables@[j]).table != table
}

/// The slots that the search reads for `table`: those of its first table.
pub open spec fn slots_of(d: SpawnData, table: u64) -> Vec<SlotDetail> {
    d.tables@[choose|t: int| is_first_table(d, table, t)].slots
}

pub proof fn lemma_first_table_unique(d: SpawnData, table: u64, a: int, b: int)
    requires
        is_first_table(d, table, a),
        is_first_table(d, table, b),
    ensures
        a == b,
{
    if a < b {
        assert(d.tables@[a].table != table);
    } else if b < a {
        assert(d.tables@[b].table != table);
    }
}

/// Every spawn point of the chain has its slot table.
pub open spec fn tables_present(nodes: Seq<SpawnInfo>, d: SpawnData) -> bool {
    forall|n: int| 0 <= n < nodes.len() ==> has_table(d, (#[trigger] nodes[n]).set.table)
}

/// Some match added after position `from` is the spawn at `index` of the
/// respawn from group seed `g`, found on `path`.
pub open spec fn recorded_spawn(
    results: Seq<PermuteResult>,
    from: int,
    path: Seq<Advance>,
    g: u64,
    index: usize,
) -> bool {
    exists|k: int|
        from <= k < results.len() && (#[trigger] results[k]).advances@ == path
            && results[k].entity.group_seed == g && results[k].entity.index == index
}

/// The spawn at `index` of the respawn from group seed `g` was not kept:
/// `criteria` turned it down on `path`, or the slot pick gave no entity.
pub open spec fn declined_spawn<F: Fn(&EntityResult, &Vec<Advance>) -> bool, R: Fn(u64, &Vec<SlotDetail>, bool) -> usize>(
    criteria: F,
    roll: R,
    slots: Vec<SlotDetail>,
    path: Seq<Advance>,
    g: u64,
    index: usize,
) -> bool {
    let draw = nth(seeded(generate_seeds(g, index as nat).0), 0);
    ||| exists|e: EntityResult, v: Vec<Advance>|
        v@ == path && e.group_seed == g && e.index == index && #[trigger] criteria.ensures((&e, &v), false)
    ||| exists|na: bool| #[trigger] no_entity(roll, slots, draw, na)
}

/// The slot pick from `draw` gives no entity: no pickable slot has weight,
/// or `roll` answers with a position that is out of range or excluded.
pub open spec fn no_entity<R: Fn(u64, &Vec<SlotDetail>, bool) -> usize>(roll: R, slots: Vec<SlotDetail>, draw: u64, no_alpha: bool) -> bool {
    ||| !has_weight(slots@, no_alpha)
    ||| exists|j: usize|
        #[trigger] roll.ensures((draw, &slots, no_alpha), j) && !(j < slots@.len() && eligible(slots@[j as int], no_alpha))
}

/// Every spawn at an index in `(lo, hi]` of the respawn from `g` on `path`
/// was offered: it is recorded after `from`, or it was declined.
pub open spec fn respawn_complete<F: Fn(&EntityResult, &Vec<Advance>) -> bool, R: Fn(u64, &Vec<SlotDetail>, bool) -> usize>(
    results: Seq<PermuteResult>,
    from: int,
    criteria: F,
    roll: R,
    slots: Vec<SlotDetail>,
    path: Seq<Advance>,
    g: u64,
    lo: int,
    hi: int,
) -> bool {
    forall|i: usize|
        lo < i <= hi ==> #[trigger] recorded_spawn(results, from, path, g, i) || declined_spawn(
            criteria,
            roll,
            slots,
            path,
            g,
            i,
        )
}

/// The matches after `from` all come from the respawn from `g` on `path`,
/// at indices in `(lo, hi]` that increase.
pub open spec fn added_here(results: Seq<PermuteResult>, from: int, path: Seq<Advance>, g: u64, lo: int, hi: int) -> bool {
    &&& forall|k: int|
        from <= k < results.len() ==> {
            &&& (#[trigger] results[k]).advances@ == path
            &&& results[k].entity.group_seed == g
            &&& lo < results[k].entity.index <= hi
        }
    &&& forall|k: int| from < k < results.len() ==> results[k - 1].entity.index < (#[trigger] results[k]).entity.index
}

/// A match: the entity and the exact path of advances that led to it.
#[derive(Clone, Debug)]
pub struct PermuteResult {
    pub advances: Vec<Advance>,
    pub entity: EntityResult,
}

/// The running search: the spawn chain and the node being walked, the
/// depth bound, the path so far, and the matches found.
#[derive(Clone, Debug)]
pub struct PermuteMeta {
    pub spawners: Vec<SpawnInfo>,
    pub current: usize,
    pub max_depth: usize,
    pub data: SpawnData,
    pub results: Vec<PermuteResult>,
    pub advances: Vec<Advance>,
}

/// Whether `r` is a match for `criteria`, with the provenance of its
/// entity intact: its slot seed and alpha-move seed are the draws at its
/// index from its group seed.
pub open spec fn accepted<F: Fn(&EntityResult, &Vec<Advance>) -> bool>(criteria: F, r: PermuteResult) -> bool {
    &&& criteria.ensures((&r.entity, &r.advances), true)
    &&& r.entity.index >= 1
    &&& (r.entity.slot_seed, r.entity.alpha_seed) == generate_seeds(r.entity.group_seed, r.entity.index as nat)
}

/// Two chains that differ at most in the count seeds of their nodes.
#[verifier::opaque]
pub open spec fn same_graph(a: Seq<SpawnInfo>, b: Seq<SpawnInfo>) -> bool {
    &&& a.len() == b.len()
    &&& forall|i: int|
        0 <= i < a.len() ==> {
            &&& (#[trigger] a[i]).set == b[i].set
            &&& a[i].spawn_type == b[i].spawn_type
            &&& a[i].parent == b[i].parent
            &&& a[i].next == b[i].next
            &&& a[i].count.max_alive == b[i].count.max_alive
            &&& a[i].count.min_alive == b[i].count.min_alive
        }
}

/// Steps that enter a new wave: clearing the remaining entities, or leaving
/// slots as ghosts.
pub open spec fn is_wave_step(t: AdvanceType) -> bool {
    t == AdvanceType::CR || t == AdvanceType::G1 || t == AdvanceType::G2 || t == AdvanceType::G3
}

/// A path as the search writes it: every advance is raw, and every wave
/// step was taken while the path was shorter than `max_depth`.
pub open spec fn search_path(path: Seq<Advance>, max_depth: usize) -> bool {
    &&& forall|i: int| 0 <= i < path.len() ==> (#[trigger] path[i]).raw
    &&& forall|i: int| 0 <= i < path.len() && is_wave_step(#[trigger] path[i].advance_type) ==> i < max_depth
}

/// Every match that `later` adds to `earlier` respects the depth bound.
#[verifier::opaque]
pub open spec fn results_within(earlier: Seq<PermuteResult>, later: Seq<PermuteResult>, max_depth: usize) -> bool {
    forall|k: int| earlier.len() <= k < later.len() ==> search_path((#[trigger] later[k]).advances@, max_depth)
}

pub proof fn lemma_within_push(path: Seq<Advance>, x: Advance, max_depth: usize)
    requires
        search_path(path, max_depth),
        x.raw,
        !is_wave_step(x.advance_type) || path.len() < max_depth,
    ensures
        search_path(path.push(x), max_depth),
{
    assert forall|i: int| 0 <= i < path.push(x).len() && is_wave_step(#[trigger] path.push(x)[i].advance_type) implies i < max_depth by {
        if i < path.len() {
            assert(path.push(x)[i] == path[i]);
        }
    }
    assert forall|i: int| 0 <= i < path.push(x).len() implies (#[trigger] path.push(x)[i]).raw by {
        if i < path.len() {
            assert(path.push(x)[i] == path[i]);
        }
    }
}

pub proof fn lemma_within_trans<F: Fn(&EntityResult, &Vec<Advance>) -> bool>(
    a: Seq<PermuteResult>,
    b: Seq<PermuteResult>,
    c: Seq<PermuteResult>,
    criteria: F,
    max_depth: usize,
)
    requires
        results_extend(a, b, criteria),
        results_extend(b, c, criteria),
        results_within(a, b, max_depth),
        results_within(b, c, max_depth),
    ensures
        results_within(a, c, max_depth),
{
    reveal(results_extend);
    reveal(results_within);
    assert forall|k: int| a.len() <= k < c.len() implies search_path((#[trigger] c[k]).advances@, max_depth) by {
        if k < b.len() {
            assert(c[k] == b[k]);
        }
    }
}

/// Every match that `later` adds to `earlier` was found under `path`: its
/// own path starts with it.
#[verifier::opaque]
pub open spec fn results_under(earlier: Seq<PermuteResult>, later: Seq<PermuteResult>, path: Seq<Advance>) -> bool {
    forall|k: int|
        earlier.len() <= k < later.len() ==> path.len() <= (#[trigger] later[k]).advances@.len()
            && later[k].advances@.subrange(0, path.len() as int) == path
}

/// Every match that `later` adds to `earlier` has a path longer than `at`
/// whose advance at `at` satisfies `ok`.
pub open spec fn first_steps(earlier: Seq<PermuteResult>, later: Seq<PermuteResult>, at: int, ok: spec_fn(AdvanceType) -> bool) -> bool {
    forall|k: int|
        earlier.len() <= k < later.len() ==> at < (#[trigger] later[k]).advances@.len()
            && ok(later[k].advances@[at].advance_type)
}

pub proof fn lemma_under_trans<F: Fn(&EntityResult, &Vec<Advance>) -> bool>(
    a: Seq<PermuteResult>,
    b: Seq<PermuteResult>,
    c: Seq<PermuteResult>,
    path: Seq<Advance>,
    criteria: F,
)
    requires
        results_extend(a, b, criteria),
        results_extend(b, c, criteria),
        results_under(a, b, path),
        results_under(b, c, path),
    ensures
        results_under(a, c, path),
{
    reveal(results_extend);
    reveal(results_under);
    assert forall|k: int| a.len() <= k < c.len() implies path.len() <= (#[trigger] c[k]).advances@.len()
        && c[k].advances@.subrange(0, path.len() as int) == path by {
        if k < b.len() {
            assert(c[k] == b[k]);
        }
    }
}

/// Matches found under `path + [x]` were found under `path`, with `x` next.
pub proof fn lemma_under_pop(a: Seq<PermuteResult>, b: Seq<PermuteResult>, path: Seq<Advance>, x: Advance)
    requires
        results_under(a, b, path.push(x)),
    ensures
        results_under(a, b, path),
        forall|k: int| a.len() <= k < b.len() ==> path.len() < (#[trigger] b[k]).advances@.len()
            && b[k].advances@[path.len() as int] == x,
{
    reveal(results_under);
    assert forall|k: int| a.len() <= k < b.len() implies path.len() <= (#[trigger] b[k]).advances@.len()
        && b[k].advances@.subrange(0, path.len() as int) == path by {
        assert(b[k].advances@.subrange(0, path.len() as int + 1) == path.push(x));
        assert(b[k].advances@.subrange(0, path.len() as int) =~= b[k].advances@.subrange(0, path.len() as int + 1).subrange(0, path.len() as int));
    }
    assert forall|k: int| a.len() <= k < b.len() implies path.len() < (#[trigger] b[k]).advances@.len()
        && b[k].advances@[path.len() as int] == x by {
        assert(b[k].advances@.subrange(0, path.len() as int + 1) == path.push(x));
        assert(b[k].advances@.subrange(0, path.len() as int + 1)[path.len() as int] == x);
    }
}

pub proof fn lemma_first_steps_trans<F: Fn(&EntityResult, &Vec<Advance>) -> bool>(
    a: Seq<PermuteResult>,
    b: Seq<PermuteResult>,
    c: Seq<PermuteResult>,
    at: int,
    ok: spec_fn(AdvanceType) -> bool,
    criteria: F,
)
    requires
        results_extend(b, c, criteria),
        a.len() <= b.len(),
        first_steps(a, b, at, ok),
        first_steps(b, c, at, ok),
    ensures
        first_steps(a, c, at, ok),
{
    reveal(results_extend);
    assert forall|k: int| a.len() <= k < c.len() implies at < (#[trigger] c[k]).advances@.len()
        && ok(c[k].advances@[at].advance_type) by {
        if k < b.len() {
            assert(c[k] == b[k]);
        }
    }
}

/// Exactly the advance type `t`.
pub open spec fn only(t: AdvanceType) -> spec_fn(AdvanceType) -> bool {
    |u: AdvanceType| u == t
}

/// The first advances a regular spawner branches on.
pub open spec fn regular_first() -> spec_fn(AdvanceType) -> bool {
    |u: AdvanceType| u == AdvanceType::RG || u == AdvanceType::A1 || u == AdvanceType::A2 || u == AdvanceType::A3
        || u == AdvanceType::A4
}

/// The first advances an outbreak with entities left branches on: the
/// aggressive, beta and oblivious knockouts and the multi-scares.
pub open spec fn knockout_first() -> spec_fn(AdvanceType) -> bool {
    |u: AdvanceType| crate::advance::removes_entities(u)
}

pub proof fn lemma_first_steps_add<F: Fn(&EntityResult, &Vec<Advance>) -> bool>(
    a: Seq<PermuteResult>,
    b: Seq<PermuteResult>,
    c: Seq<PermuteResult>,
    at: int,
    t: AdvanceType,
    ok: spec_fn(AdvanceType) -> bool,
    criteria: F,
)
    requires
        results_extend(a, b, criteria),
        results_extend(b, c, criteria),
        first_steps(a, b, at, ok),
        first_steps(b, c, at, only(t)),
        ok(t),
    ensures
        first_steps(a, c, at, ok),
{
    reveal(results_extend);
    assert forall|k: int| b.len() <= k < c.len() implies at < (#[trigger] c[k]).advances@.len()
        && ok(c[k].advances@[at].advance_type) by {
        assert(only(t)(c[k].advances@[at].advance_type));
    }
    lemma_first_steps_trans(a, b, c, at, ok, criteria);
}

/// `later` keeps every match of `earlier` in place, and each match it
/// adds is accepted by `criteria`.
#[verifier::opaque]
pub open spec fn results_extend<F: Fn(&EntityResult, &Vec<Advance>) -> bool>(
    earlier: Seq<PermuteResult>,
    later: Seq<PermuteResult>,
    criteria: F,
) -> bool {
    &&& earlier.len() <= later.len()
    &&& forall|k: int| 0 <= k < earlier.len() ==> later[k] == #[trigger] earlier[k]
    &&& forall|k: int| earlier.len() <= k < later.len() ==> accepted(criteria, #[trigger] later[k])
}

pub proof fn lemma_results_refl<F: Fn(&EntityResult, &Vec<Advance>) -> bool>(a: Seq<PermuteResult>, criteria: F)
    ensures
        results_extend(a, a, criteria),
{
    reveal(results_extend);
}

pub proof fn lemma_results_trans<F: Fn(&EntityResult, &Vec<Advance>) -> bool>(
    a: Seq<PermuteResult>,
    b: Seq<PermuteResult>,
    c: Seq<PermuteResult>,
    criteria: F,
)
    requires
        results_extend(a, b, criteria),
        results_extend(b, c, criteria),
    ensures
        results_extend(a, c, criteria),
{
    reveal(results_extend);
    assert forall|k: int| a.len() <= k < c.len() implies accepted(criteria, #[trigger] c[k]) by {
        if k < b.len() {
            assert(c[k] == b[k]);
        }
    }
}

pub proof fn lemma_results_push<F: Fn(&EntityResult, &Vec<Advance>) -> bool>(
    a: Seq<PermuteResult>,
    r: PermuteResult,
    criteria: F,
)
    requires
        accepted(criteria, r),
    ensures
        results_extend(a, a.push(r), criteria),
{
    reveal(results_extend);
}

/// Every match of an extension of the empty list is accepted.
pub proof fn lemma_results_from_empty<F: Fn(&EntityResult, &Vec<Advance>) -> bool>(
    b: Seq<PermuteResult>,
    criteria: F,
)
    requires
        results_extend(Seq::empty(), b, criteria),
    ensures
        forall|k: int| 0 <= k < b.len() ==> accepted(criteria, #[trigger] b[k]),
{
    reveal(results_extend);
}

pub proof fn lemma_same_graph_refl(a: Seq<SpawnInfo>)
    ensures
        same_graph(a, a),
{
    reveal(same_graph);
}

/// Replacing a node by one of the same shape keeps the chain's shape and
/// its well-formedness.
#[verifier::rlimit(100)]
pub proof fn lemma_same_graph_update(a: Seq<SpawnInfo>, i: int, node: SpawnInfo)
    requires
        0 <= i < a.len(),
        node.set == a[i].set,
        node.spawn_type == a[i].spawn_type,
        node.parent == a[i].parent,
        node.next == a[i].next,
        node.count.max_alive == a[i].count.max_alive,
        node.count.min_alive == a[i].count.min_alive,
    ensures
        same_graph(a, a.update(i, node)),
        chain_wf(a) ==> chain_wf(a.update(i, node)),
{
    reveal(same_graph);
    reveal(chain_wf);
    let b = a.update(i, node);
    if chain_wf(a) {
        assert forall|k: int| 0 <= k < b.len() implies {
            &&& (#[trigger] b[k]).count.wf()
            &&& b[k].next matches Some(j) ==> j < b.len() && b[j as int].spawn_type != SpawnType::Regular
        } by {
            assert(a[k].count.wf());
            if let Some(j) = b[k].next {
                assert(a[j as int].spawn_type == b[j as int].spawn_type);
            }
        }
    }
}

impl PermuteMeta {
    pub open spec fn wf(&self) -> bool {
        &&& chain_wf(self.spawners@)
        &&& self.current < self.spawners@.len()
        &&& data_wf(self.data)
        &&& tables_present(self.spawners@, self.data)
    }

    /// Waves that may still be chained before the depth bound stops the search.
    pub open spec fn depth_left(&self) -> nat {
        if self.advances@.len() < self.max_depth {
            (self.max_depth - self.advances@.len()) as nat
        } else {
            0
        }
    }

    /// What a step of the search leaves as it found it: the path, the node,
    /// the bound and the data, the chain up to count seeds, and every match
    /// found before. The matches it adds all satisfy `criteria`.
    pub open spec fn extends<F: Fn(&EntityResult, &Vec<Advance>) -> bool>(
        &self,
        later: PermuteMeta,
        criteria: F,
    ) -> bool {
        &&& self.extends_core(later, criteria)
        &&& results_under(self.results@, later.results@, self.advances@)
        &&& search_path(self.advances@, self.max_depth) ==> results_within(
            self.results@,
            later.results@,
            self.max_depth,
        )
    }

    /// `extends` without the depth bound on the added matches.
    pub open spec fn extends_core<F: Fn(&EntityResult, &Vec<Advance>) -> bool>(
        &self,
        later: PermuteMeta,
        criteria: F,
    ) -> bool {
        &&& later.advances@ == self.advances@
        &&& later.current == self.current
        &&& later.max_depth == self.max_depth
        &&& later.data == self.data
        &&& later.spawners == self.spawners
        &&& results_extend(self.results@, later.results@, criteria)
    }

    pub fn has_results(&self) -> (r: bool)
        ensures
            r == (self.results@.len() != 0),
    {
        self.results.len() != 0
    }

    /// The next wave, while the path is shorter than the depth bound.
    pub fn attempt_next_wave(&self) -> (r: Option<usize>)
        requires
            self.current < self.spawners@.len(),
        ensures
            r == if self.advances@.len() < self.max_depth {
                self.spawners@[self.current as int].next
            } else {
                None
            },
    {
        if self.advances.len() < self.max_depth {
            self.spawners[self.current].get_next_wave()
        } else {
            None
        }
    }

    pub fn start(&mut self, adv: Advance)
        ensures
            final(self).advances@ == old(self).advances@.push(adv),
            final(self).spawners == old(self).spawners,
            final(self).current == old(self).current,
            final(self).max_depth == old(self).max_depth,
            final(self).data == old(self).data,
            final(self).results == old(self).results,
    {
        self.advances.push(adv)
    }

    pub fn end(&mut self)
        requires
            old(self).advances@.len() > 0,
        ensures
            final(self).advances@ == old(self).advances@.drop_last(),
            final(self).spawners == old(self).spawners,
            final(self).current == old(self).current,
            final(self).max_depth == old(self).max_depth,
            final(self).data == old(self).data,
            final(self).results == old(self).results,
    {
        self.advances.pop();
    }

    /// Records `entity` as a match of the current path.
    pub fn add_result(&mut self, entity: EntityResult)
        ensures
            final(self).results@.len() == old(self).results@.len() + 1,
            forall|k: int| 0 <= k < old(self).results@.len() ==> final(self).results@[k] == old(self).results@[k],
            final(self).results@.last().entity == entity,
            final(self).results@.last().advances@ == old(self).advances@,
            final(self).advances == old(self).advances,
            final(self).spawners == old(self).spawners,
            final(self).current == old(self).current,
            final(self).max_depth == old(self).max_depth,
            final(self).data == old(self).data,
    {
        let steps = copy_path(&self.advances);
        self.results.push(PermuteResult { advances: steps, entity });
    }

    pub fn is_result<F: Fn(&EntityResult, &Vec<Advance>) -> bool>(&self, entity: &EntityResult, criteria: &F) -> (r: bool)
        requires
            forall|e: &EntityResult, p: &Vec<Advance>| criteria.requires((e, p)),
        ensures
            criteria.ensures((entity, &self.advances), r),
    {
        criteria(entity, &self.advances)
    }
}

/// A copy of a path.
pub fn copy_path(path: &Vec<Advance>) -> (r: Vec<Advance>)
    ensures
        r@ == path@,
{
    let mut out: Vec<Advance> = Vec::new();
    let mut i: usize = 0;
    while i < path.len()
        invariant
            i <= path@.len(),
            out@ == path@.subrange(0, i as int),
        decreases path@.len() - i,
    {
        out.push(path[i]);
        i = i + 1;
        proof {
            assert(out@ =~= path@.subrange(0, i as int));
        }
    }
    proof {
        assert(out@ =~= path@);
    }
    out
}

/// The default match: a shiny alpha.
pub fn default_criteria(result: &EntityResult, _advances: &Vec<Advance>) -> (r: bool)
    ensures
        r == (result.is_shiny && result.is_alpha),
{
    result.is_shiny && result.is_alpha
}

/// Position of the first slot table with the id `table`.
fn find_table(data: &SpawnData, table: u64) -> (r: Option<usize>)
    ensures
        r matches Some(i) ==> is_first_table(*data, table, i as int),
        has_table(*data, table) ==> r.is_some(),
{
    let mut i: usize = 0;
    while i < data.tables.len()
        invariant
            i <= data.tables@.len(),
            forall|j: int| 0 <= j < i ==> (#[trigger] data.tables@[j]).table != table,
        decreases data.tables@.len() - i,
    {
        if data.tables[i].table == table {
            return Some(i);
        }
        i = i + 1;
    }
    None
}

pub proof fn lemma_slots_of(d: SpawnData, table: u64, t: int)
    requires
        is_first_table(d, table, t),
    ensures
        slots_of(d, table) == d.tables@[t].slots,
{
    let c = choose|c: int| is_first_table(d, table, c);
    lemma_first_table_unique(d, table, c, t);
}

/// The entities of one respawn, by category, and the group seed after it.
#[derive(Copy, Clone, Debug)]
struct GenerationResult {
    seed: u64,
    alpha: usize,
    aggressive: usize,
    skittish: usize,
    oblivious: usize,
}

/// The category of a spawned entity: 0 alpha, 1 oblivious, 2 skittish,
/// 3 aggressive.
fn classify(entity: &EntityResult, data: &SpawnData) -> (r: u8)
    ensures
        r <= 3,
        r == 0 <==> entity.is_alpha,
{
    if entity.is_alpha {
        0
    } else if entity.is_oblivious(&data.oblivious) {
        1
    } else if entity.is_skittish(&data.skittish) {
        2
    } else {
        3
    }
}

/// The entity rolled at `index` from the table at position `t`, if any.
fn roll_spawn<R: Fn(u64, &Vec<SlotDetail>, bool) -> usize>(
    data: &SpawnData,
    t: usize,
    group_seed: u64,
    index: usize,
    sub_seed: u64,
    alpha_seed: u64,
    spawn_type: SpawnType,
    no_alpha: bool,
    roll: &R,
) -> (r: Option<EntityResult>)
    requires
        data_wf(*data),
        t < data.tables@.len(),
        forall|d: u64, s: &Vec<SlotDetail>, n: bool| roll.requires((d, s, n)),
    ensures
        r matches Some(e) ==> e.group_seed == group_seed && e.index == index && e.slot_seed == sub_seed
            && e.alpha_seed == alpha_seed && (no_alpha ==> !e.is_alpha),
        r is None ==> no_entity(*roll, data.tables@[t as int].slots, nth(seeded(sub_seed), 0), no_alpha),
{
    proof {
        assert forall|k: int| 0 <= k < data.tables@[t as int].slots@.len() implies (
        #[trigger] data.tables@[t as int].slots@[k]).wf() by {
            assert(data.tables@[t as int].slots@[k] == data.tables@[t as int].slots@[k]);
        }
    }
    generate(group_seed, index, sub_seed, alpha_seed, &data.tables[t].slots, spawn_type, no_alpha, roll)
}

pub proof fn lemma_extends_refl<F: Fn(&EntityResult, &Vec<Advance>) -> bool>(m: PermuteMeta, criteria: F)
    ensures
        m.extends(m, criteria),
{
    reveal(results_within);
    reveal(results_under);
    lemma_results_refl(m.results@, criteria);
}

/// What `results_extend` says of the matches that were there before.
pub proof fn lemma_results_prefix<F: Fn(&EntityResult, &Vec<Advance>) -> bool>(
    a: Seq<PermuteResult>,
    b: Seq<PermuteResult>,
    criteria: F,
)
    requires
        results_extend(a, b, criteria),
    ensures
        a.len() <= b.len(),
        forall|k: int| 0 <= k < a.len() ==> b[k] == #[trigger] a[k],
{
    reveal(results_extend);
}

/// A respawn stays complete when matches are only added, and from any
/// earlier starting position.
pub proof fn lemma_complete_grow<F: Fn(&EntityResult, &Vec<Advance>) -> bool, R: Fn(u64, &Vec<SlotDetail>, bool) -> usize>(
    a: Seq<PermuteResult>,
    b: Seq<PermuteResult>,
    from_a: int,
    from_b: int,
    criteria: F,
    roll: R,
    slots: Vec<SlotDetail>,
    path: Seq<Advance>,
    g: u64,
    lo: int,
    hi: int,
)
    requires
        a.len() <= b.len(),
        forall|k: int| 0 <= k < a.len() ==> b[k] == #[trigger] a[k],
        0 <= from_b <= from_a,
        respawn_complete(a, from_a, criteria, roll, slots, path, g, lo, hi),
    ensures
        respawn_complete(b, from_b, criteria, roll, slots, path, g, lo, hi),
{
    assert forall|i: usize| lo < i <= hi implies #[trigger] recorded_spawn(b, from_b, path, g, i) || declined_spawn(
        criteria,
        roll,
        slots,
        path,
        g,
        i,
    ) by {
        if recorded_spawn(a, from_a, path, g, i) {
            let k = choose|k: int|
                from_a <= k < a.len() && (#[trigger] a[k]).advances@ == path && a[k].entity.group_seed == g
                    && a[k].entity.index == i;
            assert(b[k] == a[k]);
        }
    }
}

/// One more index of a respawn: the matches stay as `added_here` says, with
/// a new last one at index `hi` if any.
pub proof fn lemma_added_step(a: Seq<PermuteResult>, b: Seq<PermuteResult>, from: int, path: Seq<Advance>, g: u64, lo: int, hi: int)
    requires
        0 <= from <= a.len(),
        added_here(a, from, path, g, lo, hi - 1),
        b == a || (lo < hi && b.len() == a.len() + 1 && b.drop_last() == a && b.last().advances@ == path
            && b.last().entity.group_seed == g && b.last().entity.index == hi),
    ensures
        added_here(b, from, path, g, lo, hi),
{
    if b != a {
        assert forall|k: int| from <= k < b.len() implies {
            &&& (#[trigger] b[k]).advances@ == path
            &&& b[k].entity.group_seed == g
            &&& lo < b[k].entity.index <= hi
        } by {
            if k < a.len() {
                assert(b[k] == b.drop_last()[k]);
            }
        }
        assert forall|k: int| from < k < b.len() implies b[k - 1].entity.index < (#[trigger] b[k]).entity.index by {
            assert(b[k - 1] == b.drop_last()[k - 1]);
            if k < a.len() {
                assert(b[k] == b.drop_last()[k]);
                assert(a[k - 1].entity.index < a[k].entity.index);
            }
        }
    }
}

/// One more index of a respawn, offered or outside the respawn.
pub proof fn lemma_complete_step<F: Fn(&EntityResult, &Vec<Advance>) -> bool, R: Fn(u64, &Vec<SlotDetail>, bool) -> usize>(
    a: Seq<PermuteResult>,
    b: Seq<PermuteResult>,
    from: int,
    criteria: F,
    roll: R,
    slots: Vec<SlotDetail>,
    path: Seq<Advance>,
    g: u64,
    lo: int,
    hi: int,
)
    requires
        0 <= from,
        a.len() <= b.len(),
        forall|k: int| 0 <= k < a.len() ==> b[k] == #[trigger] a[k],
        respawn_complete(a, from, criteria, roll, slots, path, g, lo, hi - 1),
        0 <= hi,
        hi <= lo || recorded_spawn(b, from, path, g, hi as usize) || declined_spawn(criteria, roll, slots, path, g, hi as usize),
    ensures
        respawn_complete(b, from, criteria, roll, slots, path, g, lo, hi),
{
    lemma_complete_grow(a, b, from, from, criteria, roll, slots, path, g, lo, hi - 1);
    assert forall|i: usize| lo < i <= hi implies #[trigger] recorded_spawn(b, from, path, g, i) || declined_spawn(
        criteria,
        roll,
        slots,
        path,
        g,
        i,
    ) by {
        if i < hi {
            assert(recorded_spawn(b, from, path, g, i) || declined_spawn(criteria, roll, slots, path, g, i));
        }
    }
}

/// Records `entity` under the current path when `criteria` accepts it.
fn record_if_match<F: Fn(&EntityResult, &Vec<Advance>) -> bool>(meta: &mut PermuteMeta, entity: EntityResult, criteria: &F)
    requires
        forall|e: &EntityResult, p: &Vec<Advance>| criteria.requires((e, p)),
        entity.index >= 1,
        (entity.slot_seed, entity.alpha_seed) == generate_seeds(entity.group_seed, entity.index as nat),
    ensures
        old(meta).extends(*final(meta), *criteria),
        final(meta).results@.len() == old(meta).results@.len() ==> final(meta).results@ == old(meta).results@
            && exists|e: EntityResult, v: Vec<Advance>|
            v@ == old(meta).advances@ && e.group_seed == entity.group_seed && e.index == entity.index
                && #[trigger] criteria.ensures((&e, &v), false),
        final(meta).results@.len() != old(meta).results@.len() ==> final(meta).results@.len() == old(meta).results@.len() + 1
            && final(meta).results@.drop_last() == old(meta).results@
            && final(meta).results@.last().advances@ == old(meta).advances@
            && final(meta).results@.last().entity == entity,
{
    let path = copy_path(&meta.advances);
    let keep = criteria(&entity, &path);
    proof {
        lemma_results_refl(meta.results@, *criteria);
        reveal(results_within);
        reveal(results_under);
    }
    if keep {
        let r = PermuteResult { advances: path, entity };
        let ghost before = meta.results@;
        proof {
            lemma_results_push(meta.results@, r, *criteria);
        }
        meta.results.push(r);
        proof {
            assert(meta.results@.drop_last() =~= before);
            let k = meta.results@.len() - 1;
            assert(meta.results@[k].advances@.subrange(0, meta.advances@.len() as int) =~= meta.advances@);
        }
    } else {
        proof {
            assert(criteria.ensures((&entity, &path), false));
        }
    }
}

/// Rolls the entities of one respawn into `count` empty slots, of which the
/// first `ghosts` stay empty, and records each one that `criteria` accepts
/// under the current path. Where only one alpha may be alive, at most one
/// alpha spawns, and none while one is alive.
#[verifier::rlimit(100)]
fn generate_spawns<F: Fn(&EntityResult, &Vec<Advance>) -> bool, R: Fn(u64, &Vec<SlotDetail>, bool) -> usize>(
    meta: &mut PermuteMeta,
    table: u64,
    seed: u64,
    count: usize,
    ghosts: usize,
    current_alpha: usize,
    only_one_alpha: bool,
    criteria: &F,
    roll: &R,
) -> (r: GenerationResult)
    requires
        old(meta).wf(),
        table == old(meta).spawners@[old(meta).current as int].set.table,
        ghosts <= count,
        forall|e: &EntityResult, p: &Vec<Advance>| criteria.requires((e, p)),
        forall|d: u64, t: &Vec<SlotDetail>, n: bool| roll.requires((d, t, n)),
    ensures
        old(meta).extends(*final(meta), *criteria),
        r.seed == group_seed_after(seed, count as nat),
        r.alpha <= r.aggressive,
        r.aggressive + r.skittish + r.oblivious <= count - ghosts,
        only_one_alpha ==> r.alpha <= if current_alpha == 0 { 1usize } else { 0usize },
        added_here(final(meta).results@, old(meta).results@.len() as int, old(meta).advances@, seed, ghosts as int, count as int),
        respawn_complete(
            final(meta).results@,
            old(meta).results@.len() as int,
            *criteria,
            *roll,
            slots_of(old(meta).data, table),
            old(meta).advances@,
            seed,
            ghosts as int,
            count as int,
        ),
{
    let mut alpha: usize = 0;
    let mut aggressive: usize = 0;
    let mut beta: usize = 0;
    let mut oblivious: usize = 0;
    let spawn_type = meta.spawners[meta.current].spawn_type;
    proof {
        assert(has_table(meta.data, meta.spawners@[meta.current as int].set.table));
    }
    let found = find_table(&meta.data, table);
    let t = found.unwrap();
    proof {
        lemma_slots_of(meta.data, table, t as int);
    }
    let ghost slots = meta.data.tables@[t as int].slots;
    let ghost from = meta.results@.len() as int;
    let ghost path = meta.advances@;
    let mut rng = Xoroshiro::new(seed);
    let ghost start = seeded(seed);
    let ghost first = *meta;
    proof {
        lemma_extends_refl(first, *criteria);
    }
    let mut i: usize = 0;
    while i < count
        invariant
            first.wf(),
            ghosts <= count,
            i <= count,
            rng == advance(start, 2 * i as nat),
            start == seeded(seed),
            first.extends(*meta, *criteria),
            t < meta.data.tables@.len(),
            slots == meta.data.tables@[t as int].slots,
            slots == slots_of(first.data, table),
            path == first.advances@,
            from == first.results@.len(),
            alpha + aggressive + beta + oblivious <= if i <= ghosts { 0 } else { i - ghosts },
            only_one_alpha ==> alpha <= if current_alpha == 0 { 1usize } else { 0usize },
            added_here(meta.results@, from, path, seed, ghosts as int, i as int),
            respawn_complete(meta.results@, from, *criteria, *roll, slots, path, seed, ghosts as int, i as int),
            forall|e: &EntityResult, p: &Vec<Advance>| criteria.requires((e, p)),
            forall|d: u64, s: &Vec<SlotDetail>, n: bool| roll.requires((d, s, n)),
        decreases count - i,
    {
        i = i + 1;
        proof {
            crate::calculations::lemma_advance_step(start, (2 * (i - 1)) as nat);
            crate::calculations::lemma_advance_step(start, (2 * (i - 1) + 1) as nat);
        }
        let sub_seed = rng.next_u64();
        let alpha_seed = rng.next_u64();
        let ghost before = *meta;
        proof {
            assert(sub_seed == generate_seeds(seed, i as nat).0);
            lemma_results_prefix(first.results@, before.results@, *criteria);
        }
        if i > ghosts {
            let no_alpha = only_one_alpha && (current_alpha != 0 || alpha != 0);
            let generated = roll_spawn(&meta.data, t, seed, i, sub_seed, alpha_seed, spawn_type, no_alpha, roll);
            match generated {
                Some(entity) => {
                    let kind = classify(&entity, &meta.data);
                    if kind == 0 {
                        alpha = alpha + 1;
                    } else if kind == 1 {
                        oblivious = oblivious + 1;
                    } else if kind == 2 {
                        beta = beta + 1;
                    } else {
                        aggressive = aggressive + 1;
                    }
                    record_if_match(meta, entity, criteria);
                    proof {
                        lemma_extends_chain(first, before, *meta, *criteria);
                        if meta.results@.len() != before.results@.len() {
                            let k = meta.results@.len() - 1;
                            assert(meta.results@[k] == meta.results@.last());
                            assert(recorded_spawn(meta.results@, from, path, seed, i));
                        }
                    }
                },
                None => {
                    proof {
                        assert(no_entity(*roll, slots, nth(seeded(generate_seeds(seed, i as nat).0), 0), no_alpha));
                        assert(declined_spawn(*criteria, *roll, slots, path, seed, i));
                    }
                },
            }
        }
        proof {
            if *meta == before {
                lemma_results_refl(before.results@, *criteria);
            }
            lemma_results_prefix(before.results@, meta.results@, *criteria);
            lemma_added_step(before.results@, meta.results@, from, path, seed, ghosts as int, i as int);
            lemma_complete_step(before.results@, meta.results@, from, *criteria, *roll, slots, path, seed, ghosts as int, i as int);
        }
    }
    proof {
        crate::calculations::lemma_advance_step(start, (2 * count) as nat);
    }
    let result = rng.next_u64();
    GenerationResult { seed: result, alpha, aggressive: aggressive + alpha, skittish: beta, oblivious }
}

/// The entity-to-state bookkeeping of one respawn: every empty slot is
/// refilled as far as `count` allows, the rest stay as ghosts.
pub open spec fn respawned(before: SpawnState, after: SpawnState) -> bool {
    let respawn = min_nat(before.count as int, before.dead as int);
    exists|alpha: int, aggro: int, beta: int, oblivious: int|
        before.can_add(respawn, alpha, aggro, beta, oblivious) && after == before.added(
            respawn,
            alpha,
            aggro,
            beta,
            oblivious,
        )
}

/// Slots of `state` that a respawn leaves as ghosts.
pub open spec fn ghost_slots(state: SpawnState) -> int {
    state.dead - min_nat(state.count as int, state.dead as int)
}

/// The respawn from `state` on `path` offered every spawn to `criteria`,
/// when anything was left to spawn into an empty slot.
pub open spec fn respawn_offered<F: Fn(&EntityResult, &Vec<Advance>) -> bool, R: Fn(u64, &Vec<SlotDetail>, bool) -> usize>(
    results: Seq<PermuteResult>,
    from: int,
    criteria: F,
    roll: R,
    data: SpawnData,
    table: u64,
    path: Seq<Advance>,
    seed: u64,
    state: SpawnState,
) -> bool {
    state.count != 0 && state.dead != 0 ==> respawn_complete(
        results,
        from,
        criteria,
        roll,
        slots_of(data, table),
        path,
        seed,
        ghost_slots(state),
        state.dead as int,
    )
}

pub proof fn lemma_offered_grow<F: Fn(&EntityResult, &Vec<Advance>) -> bool, R: Fn(u64, &Vec<SlotDetail>, bool) -> usize>(
    a: Seq<PermuteResult>,
    b: Seq<PermuteResult>,
    from_a: int,
    from_b: int,
    criteria: F,
    roll: R,
    data: SpawnData,
    table: u64,
    path: Seq<Advance>,
    seed: u64,
    state: SpawnState,
)
    requires
        a.len() <= b.len(),
        forall|k: int| 0 <= k < a.len() ==> b[k] == #[trigger] a[k],
        0 <= from_b <= from_a,
        respawn_offered(a, from_a, criteria, roll, data, table, path, seed, state),
    ensures
        respawn_offered(b, from_b, criteria, roll, data, table, path, seed, state),
{
    if state.count != 0 && state.dead != 0 {
        lemma_complete_grow(a, b, from_a, from_b, criteria, roll, slots_of(data, table), path, seed, ghost_slots(state), state.dead as int);
    }
}

/// Refills the empty slots of `state` from the table: returns the group
/// seed after the respawn and the new state, and records under the current
/// path each spawned entity that `criteria` accepts. A state with nothing
/// left to spawn is returned as it is.
pub fn update_respawn<F: Fn(&EntityResult, &Vec<Advance>) -> bool, R: Fn(u64, &Vec<SlotDetail>, bool) -> usize>(
    meta: &mut PermuteMeta,
    table: u64,
    seed: u64,
    state: SpawnState,
    criteria: &F,
    roll: &R,
) -> (r: (u64, SpawnState))
    requires
        old(meta).wf(),
        table == old(meta).spawners@[old(meta).current as int].set.table,
        state.wf(),
        forall|e: &EntityResult, p: &Vec<Advance>| criteria.requires((e, p)),
        forall|d: u64, t: &Vec<SlotDetail>, n: bool| roll.requires((d, t, n)),
    ensures
        old(meta).extends(*final(meta), *criteria),
        state.count == 0 ==> r == (seed, state) && *final(meta) == *old(meta),
        state.count != 0 ==> r.0 == group_seed_after(seed, state.dead as nat) && respawned(state, r.1),
        state.count != 0 ==> added_here(
            final(meta).results@,
            old(meta).results@.len() as int,
            old(meta).advances@,
            seed,
            ghost_slots(state),
            state.dead as int,
        ),
        respawn_offered(final(meta).results@, old(meta).results@.len() as int, *criteria, *roll, old(meta).data, table, old(meta).advances@, seed, state),
        old(meta).spawners@[old(meta).current as int].spawn_type != SpawnType::MMO ==> r.1.alive_alpha <= if state.alive_alpha == 0 { 1 } else { state.alive_alpha },
        r.1.wf(),
        r.1.max_alive == state.max_alive,
        r.1.count <= state.count,
        state.count != 0 && state.dead != 0 ==> r.1.count < state.count,
        state.count != 0 ==> r.1.ghosts <= r.1.dead,
{
    if state.count == 0 {
        proof {
            lemma_extends_refl(*meta, *criteria);
        }
        return (seed, state);
    }
    let (empty, respawn, ghosts) = state.get_respawn_info();
    let only_one_alpha = meta.spawners[meta.current].no_multi_alpha();
    let result = generate_spawns(meta, table, seed, empty, ghosts, state.alive_alpha, only_one_alpha, criteria, roll);
    let new_state = state.add(respawn, result.alpha, result.aggressive, result.skittish, result.oblivious);
    (result.seed, new_state)
}

/// The advance that knocks out `n` aggressive entities.
pub open spec fn aggressive_type(n: int) -> AdvanceType {
    if n == 1 { AdvanceType::A1 } else if n == 2 { AdvanceType::A2 } else if n == 3 { AdvanceType::A3 } else { AdvanceType::A4 }
}

/// The advance that knocks out one beta entity after `n - 1` aggressive ones.
pub open spec fn beta_type(n: int) -> AdvanceType {
    if n == 1 { AdvanceType::B1 } else if n == 2 { AdvanceType::B2 } else if n == 3 { AdvanceType::B3 } else { AdvanceType::B4 }
}

/// The advance that knocks out one oblivious entity after `n - 1` aggressive ones.
pub open spec fn oblivious_type(n: int) -> AdvanceType {
    if n == 1 { AdvanceType::O1 } else if n == 2 { AdvanceType::O2 } else if n == 3 { AdvanceType::O3 } else { AdvanceType::O4 }
}

/// The advance that scares `n` beta entities away at once.
pub open spec fn scare_type(n: int) -> AdvanceType {
    if n == 2 { AdvanceType::S2 } else if n == 3 { AdvanceType::S3 } else { AdvanceType::S4 }
}

/// The advance that leaves `n` slots empty as ghosts.
pub open spec fn ghost_type(n: int) -> AdvanceType {
    if n == 1 { AdvanceType::G1 } else if n == 2 { AdvanceType::G2 } else { AdvanceType::G3 }
}

/// The advance that knocks out `n` aggressive entities; the catalogue has
/// variants for one to four.
pub fn aggressive_advance(n: usize) -> (r: Option<AdvanceType>)
    ensures
        r == if 1 <= n <= 4 { Some(aggressive_type(n as int)) } else { None },
        r matches Some(t) ==> !is_wave_step(t) && crate::advance::type_count(t) == n
            && crate::advance::removals(t) == (n as int, 0int, 0int),
{
    if n == 1 { Some(AdvanceType::A1) }
    else if n == 2 { Some(AdvanceType::A2) }
    else if n == 3 { Some(AdvanceType::A3) }
    else if n == 4 { Some(AdvanceType::A4) }
    else { None }
}

/// The advance that knocks out one beta entity after `n - 1` aggressive
/// ones; the catalogue has variants for one to four.
pub fn beta_advance(n: usize) -> (r: Option<AdvanceType>)
    ensures
        r == if 1 <= n <= 4 { Some(beta_type(n as int)) } else { None },
        r matches Some(t) ==> !is_wave_step(t) && crate::advance::type_count(t) == n
            && crate::advance::removals(t) == (n - 1, 1int, 0int),
{
    if n == 1 { Some(AdvanceType::B1) }
    else if n == 2 { Some(AdvanceType::B2) }
    else if n == 3 { Some(AdvanceType::B3) }
    else if n == 4 { Some(AdvanceType::B4) }
    else { None }
}

/// The advance that knocks out one oblivious entity after `n - 1`
/// aggressive ones; the catalogue has variants for one to four.
pub fn oblivious_advance(n: usize) -> (r: Option<AdvanceType>)
    ensures
        r == if 1 <= n <= 4 { Some(oblivious_type(n as int)) } else { None },
        r matches Some(t) ==> !is_wave_step(t) && crate::advance::type_count(t) == n
            && crate::advance::removals(t) == (n - 1, 0int, 1int),
{
    if n == 1 { Some(AdvanceType::O1) }
    else if n == 2 { Some(AdvanceType::O2) }
    else if n == 3 { Some(AdvanceType::O3) }
    else if n == 4 { Some(AdvanceType::O4) }
    else { None }
}

/// The advance that scares `n` beta entities away at once; the catalogue
/// has variants for two to four.
pub fn scare_advance(n: usize) -> (r: Option<AdvanceType>)
    ensures
        r == if 2 <= n <= 4 { Some(scare_type(n as int)) } else { None },
        r matches Some(t) ==> !is_wave_step(t) && crate::advance::type_count(t) == n
            && crate::advance::removals(t) == (0int, n as int, 0int),
{
    if n == 2 { Some(AdvanceType::S2) }
    else if n == 3 { Some(AdvanceType::S3) }
    else if n == 4 { Some(AdvanceType::S4) }
    else { None }
}

/// The advance that leaves `n` slots empty as ghosts; the catalogue has
/// variants for one to three.
pub fn ghost_advance(n: usize) -> (r: Option<AdvanceType>)
    ensures
        r == if 1 <= n <= 3 { Some(ghost_type(n as int)) } else { None },
        r matches Some(t) ==> is_wave_step(t) && crate::advance::type_count(t) == n,
{
    if n == 1 { Some(AdvanceType::G1) }
    else if n == 2 { Some(AdvanceType::G2) }
    else if n == 3 { Some(AdvanceType::G3) }
    else { None }
}

/// What every step of the search needs of its arguments: `table` is the
/// table of the node being walked, and the path is one the search writes.
pub open spec fn search_ready<F: Fn(&EntityResult, &Vec<Advance>) -> bool, R: Fn(u64, &Vec<SlotDetail>, bool) -> usize>(
    meta: PermuteMeta,
    table: u64,
    state: SpawnState,
    criteria: F,
    roll: R,
) -> bool {
    &&& meta.wf()
    &&& table == meta.spawners@[meta.current as int].set.table
    &&& search_path(meta.advances@, meta.max_depth)
    &&& state.wf()
    &&& state.max_alive < 0xFFFF_FFFF
    &&& forall|e: &EntityResult, p: &Vec<Advance>| criteria.requires((e, p))
    &&& forall|d: u64, t: &Vec<SlotDetail>, n: bool| roll.requires((d, t, n))
}

/// The respawn right after the search takes the advance `t` from the path
/// of `meta`, into `state`, offered every spawn.
pub open spec fn child_offered<F: Fn(&EntityResult, &Vec<Advance>) -> bool, R: Fn(u64, &Vec<SlotDetail>, bool) -> usize>(
    results: Seq<PermuteResult>,
    from: int,
    criteria: F,
    roll: R,
    meta: PermuteMeta,
    table: u64,
    seed: u64,
    t: AdvanceType,
    state: SpawnState,
) -> bool {
    respawn_offered(results, from, criteria, roll, meta.data, table, meta.advances@.push(Advance { advance_type: t, raw: true }), seed, state)
}

/// `child_offered` for every size `j` in `[lo, hi)` of one family of
/// advances: `tf(j)` is the advance and `sf(j)` the state it leads to.
pub open spec fn family_offered<F: Fn(&EntityResult, &Vec<Advance>) -> bool, R: Fn(u64, &Vec<SlotDetail>, bool) -> usize>(
    results: Seq<PermuteResult>,
    from: int,
    criteria: F,
    roll: R,
    meta: PermuteMeta,
    table: u64,
    seed: u64,
    lo: int,
    hi: int,
    tf: spec_fn(int) -> AdvanceType,
    sf: spec_fn(int) -> SpawnState,
) -> bool {
    forall|j: int| lo <= j < hi ==> #[trigger] child_offered(results, from, criteria, roll, meta, table, seed, tf(j), sf(j))
}

/// The first respawn of the next wave, when the search can move on to it
/// from the node and path of `meta`, offered every spawn.
pub open spec fn next_wave_offered<F: Fn(&EntityResult, &Vec<Advance>) -> bool, R: Fn(u64, &Vec<SlotDetail>, bool) -> usize>(
    results: Seq<PermuteResult>,
    from: int,
    criteria: F,
    roll: R,
    meta: PermuteMeta,
    seed: u64,
) -> bool {
    meta.advances@.len() < meta.max_depth ==> match meta.spawners@[meta.current as int].next {
        Some(n) => respawn_offered(
            results,
            from,
            criteria,
            roll,
            meta.data,
            meta.spawners@[n as int].set.table,
            meta.advances@.push(Advance { advance_type: AdvanceType::CR, raw: true }),
            seed,
            meta.spawners@[n as int].starting_state(),
        ),
        None => true,
    }
}

pub proof fn lemma_family_grow<F: Fn(&EntityResult, &Vec<Advance>) -> bool, R: Fn(u64, &Vec<SlotDetail>, bool) -> usize>(
    a: Seq<PermuteResult>,
    b: Seq<PermuteResult>,
    from: int,
    criteria: F,
    roll: R,
    meta: PermuteMeta,
    table: u64,
    seed: u64,
    lo: int,
    hi: int,
    tf: spec_fn(int) -> AdvanceType,
    sf: spec_fn(int) -> SpawnState,
)
    requires
        a.len() <= b.len(),
        forall|k: int| 0 <= k < a.len() ==> b[k] == #[trigger] a[k],
        0 <= from,
        family_offered(a, from, criteria, roll, meta, table, seed, lo, hi, tf, sf),
    ensures
        family_offered(b, from, criteria, roll, meta, table, seed, lo, hi, tf, sf),
{
    assert forall|j: int| lo <= j < hi implies #[trigger] child_offered(b, from, criteria, roll, meta, table, seed, tf(j), sf(j)) by {
        assert(child_offered(a, from, criteria, roll, meta, table, seed, tf(j), sf(j)));
        lemma_offered_grow(
            a,
            b,
            from,
            from,
            criteria,
            roll,
            meta.data,
            table,
            meta.advances@.push(Advance { advance_type: tf(j), raw: true }),
            seed,
            sf(j),
        );
    }
}

pub proof fn lemma_extends_chain<F: Fn(&EntityResult, &Vec<Advance>) -> bool>(
    a: PermuteMeta,
    b: PermuteMeta,
    c: PermuteMeta,
    criteria: F,
)
    requires
        a.extends(b, criteria),
        b.extends(c, criteria),
    ensures
        a.extends(c, criteria),
{
    lemma_results_trans(a.results@, b.results@, c.results@, criteria);
    lemma_under_trans(a.results@, b.results@, c.results@, a.advances@, criteria);
    if search_path(a.advances@, a.max_depth) {
        lemma_within_trans(a.results@, b.results@, c.results@, criteria, a.max_depth);
    }
}

/// Pushing an advance, searching, and popping it again extends the search.
pub proof fn lemma_push_pop_extends<F: Fn(&EntityResult, &Vec<Advance>) -> bool>(
    first: PermuteMeta,
    pushed: PermuteMeta,
    searched: PermuteMeta,
    last: PermuteMeta,
    criteria: F,
)
    requires
        pushed.advances@ == first.advances@.push(pushed.advances@.last()),
        pushed.advances@.last().raw,
        !is_wave_step(pushed.advances@.last().advance_type) || first.advances@.len() < first.max_depth,
        pushed.spawners == first.spawners,
        pushed.max_depth == first.max_depth,
        pushed.data == first.data,
        pushed.results == first.results,
        pushed.extends(searched, criteria),
        last.advances@ == searched.advances@.drop_last(),
        last.spawners == searched.spawners,
        last.current == first.current,
        last.max_depth == searched.max_depth,
        last.data == searched.data,
        last.results == searched.results,
    ensures
        first.extends(last, criteria),
        forall|k: int| first.results@.len() <= k < last.results@.len() ==> first.advances@.len() < (
        #[trigger] last.results@[k]).advances@.len() && last.results@[k].advances@[first.advances@.len() as int]
            == pushed.advances@.last(),
{
    assert(last.advances@ =~= first.advances@);
    lemma_under_pop(first.results@, last.results@, first.advances@, pushed.advances@.last());
    if search_path(first.advances@, first.max_depth) {
        lemma_within_push(first.advances@, pushed.advances@.last(), first.max_depth);
    }
}

/// Explores every path from `state`: respawns while entities remain, else
/// moves on to the next wave (within the depth bound) and tries every
/// number of ghosts.
fn permute_recursion<F: Fn(&EntityResult, &Vec<Advance>) -> bool, R: Fn(u64, &Vec<SlotDetail>, bool) -> usize>(
    meta: &mut PermuteMeta,
    table: u64,
    seed: u64,
    state: SpawnState,
    criteria: &F,
    roll: &R,
)
    requires
        search_ready(*old(meta), table, state, *criteria, *roll),
    ensures
        old(meta).extends(*final(meta), *criteria),
        respawn_offered(final(meta).results@, old(meta).results@.len() as int, *criteria, *roll, old(meta).data, table, old(meta).advances@, seed, state),
        state.count == 0 ==> next_wave_offered(final(meta).results@, old(meta).results@.len() as int, *criteria, *roll, *old(meta), seed),
    decreases old(meta).depth_left(), 2 * state.count + 2, 2int,
{
    if state.count != 0 {
        permute_outbreak(meta, table, seed, state, criteria, roll);
        return;
    }
    let next = meta.attempt_next_wave();
    let next = match next {
        Some(n) => n,
        None => {
            proof {
                lemma_extends_refl(*meta, *criteria);
            }
            return;
        },
    };
    let ghost first = *meta;
    proof {
        lemma_chain_at(meta.spawners@, meta.current as int);
    }
    permute_next_table(meta, next, seed, criteria, roll);
    let allow_ghosts = meta.spawners[meta.current].allow_ghosts();
    if allow_ghosts && state.max_alive >= 1 && state.ghosts < state.max_alive && state.can_add_ghosts() {
        let ghost mid = *meta;
        permute_add_ghosts(meta, seed, table, state, criteria, roll);
        proof {
            lemma_extends_chain(first, mid, *meta, *criteria);
            lemma_results_prefix(mid.results@, meta.results@, *criteria);
            let n = first.spawners@[first.current as int].next.unwrap();
            lemma_offered_grow(
                mid.results@,
                meta.results@,
                first.results@.len() as int,
                first.results@.len() as int,
                *criteria,
                *roll,
                first.data,
                first.spawners@[n as int].set.table,
                first.advances@.push(Advance { advance_type: AdvanceType::CR, raw: true }),
                seed,
                first.spawners@[n as int].starting_state(),
            );
        }
    }
}

/// Respawns into the empty slots of `state`, then branches on every advance.
fn permute_outbreak<F: Fn(&EntityResult, &Vec<Advance>) -> bool, R: Fn(u64, &Vec<SlotDetail>, bool) -> usize>(
    meta: &mut PermuteMeta,
    table: u64,
    seed: u64,
    state: SpawnState,
    criteria: &F,
    roll: &R,
)
    requires
        search_ready(*old(meta), table, state, *criteria, *roll),
    ensures
        old(meta).extends(*final(meta), *criteria),
        respawn_offered(final(meta).results@, old(meta).results@.len() as int, *criteria, *roll, old(meta).data, table, old(meta).advances@, seed, state),
        state.count == 0 ==> next_wave_offered(final(meta).results@, old(meta).results@.len() as int, *criteria, *roll, *old(meta), seed),
    decreases old(meta).depth_left(), if state.count == 0 { 3int } else { 2 * state.count + 2 }, 1int,
{
    if state.count == 0 {
        permute_recursion(meta, table, seed, state, criteria, roll);
        return;
    }
    if state.dead == 0 {
        // No empty slot: nothing can respawn, and no advance follows.
        proof {
            lemma_extends_refl(*meta, *criteria);
        }
        return;
    }
    let ghost first = *meta;
    let (reseed, new_state) = update_respawn(meta, table, seed, state, criteria, roll);
    let ghost mid = *meta;
    continue_permute(meta, table, reseed, new_state, Ghost(state.count as nat), criteria, roll);
    proof {
        lemma_extends_chain(first, mid, *meta, *criteria);
        lemma_results_prefix(mid.results@, meta.results@, *criteria);
        lemma_offered_grow(
            mid.results@,
            meta.results@,
            first.results@.len() as int,
            first.results@.len() as int,
            *criteria,
            *roll,
            first.data,
            table,
            first.advances@,
            seed,
            state,
        );
    }
}

/// Takes `adv` and explores every path from `state` after it.
fn branch<F: Fn(&EntityResult, &Vec<Advance>) -> bool, R: Fn(u64, &Vec<SlotDetail>, bool) -> usize>(
    meta: &mut PermuteMeta,
    adv: AdvanceType,
    table: u64,
    seed: u64,
    state: SpawnState,
    criteria: &F,
    roll: &R,
)
    requires
        search_ready(*old(meta), table, state, *criteria, *roll),
        !is_wave_step(adv),
    ensures
        old(meta).extends(*final(meta), *criteria),
        first_steps(old(meta).results@, final(meta).results@, old(meta).advances@.len() as int, only(adv)),
        child_offered(final(meta).results@, old(meta).results@.len() as int, *criteria, *roll, *old(meta), table, seed, adv, state),
    decreases old(meta).depth_left(), 2 * state.count + 2, 3int,
{
    let ghost first = *meta;
    meta.start(Advance { advance_type: adv, raw: true });
    let ghost pushed = *meta;
    proof {
        lemma_within_push(first.advances@, Advance { advance_type: adv, raw: true }, first.max_depth);
    }
    permute_recursion(meta, table, seed, state, criteria, roll);
    let ghost searched = *meta;
    meta.end();
    proof {
        lemma_push_pop_extends(first, pushed, searched, *meta, *criteria);
        assert forall|k: int| first.results@.len() <= k < meta.results@.len() implies first.advances@.len() < (
        #[trigger] meta.results@[k]).advances@.len() && only(adv)(meta.results@[k].advances@[first.advances@.len() as int].advance_type) by {
            assert(meta.results@[k].advances@[first.advances@.len() as int] == pushed.advances@.last());
        }
    }
}

/// `x` capped at 5: families of advances have at most four sizes.
pub open spec fn cap5(x: int) -> int {
    if x < 5 { x } else { 5 }
}

pub open spec fn fn_rg() -> spec_fn(int) -> AdvanceType {
    |j: int| AdvanceType::RG
}

pub open spec fn fn_aggressive() -> spec_fn(int) -> AdvanceType {
    |j: int| aggressive_type(j)
}

pub open spec fn fn_beta() -> spec_fn(int) -> AdvanceType {
    |j: int| beta_type(j)
}

pub open spec fn fn_oblivious() -> spec_fn(int) -> AdvanceType {
    |j: int| oblivious_type(j)
}

pub open spec fn fn_scare() -> spec_fn(int) -> AdvanceType {
    |j: int| scare_type(j)
}

/// `s` itself, whatever the size.
pub open spec fn states_same(s: SpawnState) -> spec_fn(int) -> SpawnState {
    |j: int| s
}

/// `j` aggressive entities knocked out of `s`.
pub open spec fn states_aggressive(s: SpawnState) -> spec_fn(int) -> SpawnState {
    |j: int| s.removed(j, 0, 0)
}

/// One beta entity and `j - 1` aggressive ones knocked out of `s`.
pub open spec fn states_beta(s: SpawnState) -> spec_fn(int) -> SpawnState {
    |j: int| s.removed(j - 1, 1, 0)
}

/// One oblivious entity and `j - 1` aggressive ones knocked out of `s`.
pub open spec fn states_oblivious(s: SpawnState) -> spec_fn(int) -> SpawnState {
    |j: int| s.removed(j - 1, 0, 1)
}

/// `j` beta entities scared out of `s`.
pub open spec fn states_scare(s: SpawnState) -> spec_fn(int) -> SpawnState {
    |j: int| s.removed(0, j, 0)
}

/// `j` entities of any category knocked out of `s`, aggressive first.
pub open spec fn states_any(s: SpawnState) -> spec_fn(int) -> SpawnState {
    |j: int| s.removed(s.any_split(j).0, s.any_split(j).1, s.any_split(j).2)
}

/// Adds the size `hi` to a family, from what the branch taken for it gives.
pub proof fn lemma_family_step<F: Fn(&EntityResult, &Vec<Advance>) -> bool, R: Fn(u64, &Vec<SlotDetail>, bool) -> usize>(
    b: Seq<PermuteResult>,
    from: int,
    from2: int,
    criteria: F,
    roll: R,
    meta: PermuteMeta,
    mid: PermuteMeta,
    table: u64,
    seed: u64,
    lo: int,
    hi: int,
    tf: spec_fn(int) -> AdvanceType,
    sf: spec_fn(int) -> SpawnState,
)
    requires
        family_offered(b, from, criteria, roll, meta, table, seed, lo, hi, tf, sf),
        child_offered(b, from2, criteria, roll, mid, table, seed, tf(hi), sf(hi)),
        mid.advances@ == meta.advances@,
        mid.data == meta.data,
        0 <= from <= from2,
    ensures
        family_offered(b, from, criteria, roll, meta, table, seed, lo, hi + 1, tf, sf),
{
    lemma_offered_grow(
        b,
        b,
        from2,
        from,
        criteria,
        roll,
        meta.data,
        table,
        meta.advances@.push(Advance { advance_type: tf(hi), raw: true }),
        seed,
        sf(hi),
    );
    assert forall|j: int| lo <= j < hi + 1 implies #[trigger] child_offered(b, from, criteria, roll, meta, table, seed, tf(j), sf(j)) by {
        if j < hi {
            assert(child_offered(b, from, criteria, roll, meta, table, seed, tf(j), sf(j)));
        }
    }
}

/// Branches on every advance that the spawner's kind allows from `state`,
/// which a respawn has just filled (`state.count < bound`): a regular
/// spawner lets it respawn in full when its count policy allows more, and
/// knocks out one to four entities of any kind; the outbreak kinds knock out
/// one to four aggressive entities, one oblivious or one beta entity after up
/// to three aggressive ones, and scare two to four betas at once (the sizes
/// the catalogue has). The respawn after each branch offers every spawn to
/// `criteria` under the path with that branch's advance.
fn continue_permute<F: Fn(&EntityResult, &Vec<Advance>) -> bool, R: Fn(u64, &Vec<SlotDetail>, bool) -> usize>(
    meta: &mut PermuteMeta,
    table: u64,
    seed: u64,
    state: SpawnState,
    Ghost(bound): Ghost<nat>,
    criteria: &F,
    roll: &R,
)
    requires
        search_ready(*old(meta), table, state, *criteria, *roll),
        state.count < bound,
    ensures
        old(meta).extends(*final(meta), *criteria),
        ({
            let sp = old(meta).spawners@[old(meta).current as int];
            let from = old(meta).results@.len() as int;
            let res = final(meta).results@;
            &&& sp.spawn_type == SpawnType::Regular ==> first_steps(old(meta).results@, res, old(meta).advances@.len() as int, regular_first())
            &&& sp.spawn_type != SpawnType::Regular && state.count != 0 ==> first_steps(old(meta).results@, res,
                old(meta).advances@.len() as int, knockout_first())
            &&& sp.spawn_type == SpawnType::Regular ==> {
                &&& family_offered(res, from, *criteria, *roll, *old(meta), table, seed, 0,
                    if sp.count.can_spawn_more_spec((state.max_alive - state.dead) as usize) { 1 } else { 0 },
                    fn_rg(), states_same(state))
                &&& family_offered(res, from, *criteria, *roll, *old(meta), table, seed, 1,
                    cap5(state.max_alive - state.dead + 1), fn_aggressive(), states_any(state))
            }
            &&& sp.spawn_type != SpawnType::Regular && state.count != 0 ==> {
                &&& family_offered(res, from, *criteria, *roll, *old(meta), table, seed, 1,
                    cap5(state.alive_aggressive + 1), fn_aggressive(), states_aggressive(state))
                &&& state.alive_oblivious != 0 ==> family_offered(res, from, *criteria, *roll, *old(meta), table, seed, 1,
                    cap5(state.alive_aggressive + 2), fn_oblivious(), states_oblivious(state))
                &&& state.alive_beta != 0 ==> family_offered(res, from, *criteria, *roll, *old(meta), table, seed, 1,
                    cap5(state.alive_aggressive + 2), fn_beta(), states_beta(state))
                &&& family_offered(res, from, *criteria, *roll, *old(meta), table, seed, 2,
                    cap5(state.alive_beta as int), fn_scare(), states_scare(state))
            }
            &&& sp.spawn_type != SpawnType::Regular && state.count == 0 ==> next_wave_offered(res, from, *criteria, *roll, *old(meta), seed)
        }),
    decreases old(meta).depth_left(), 2 * bound + 1, 0int,
{
    let ghost first = *meta;
    let ghost from = first.results@.len() as int;
    proof {
        lemma_extends_refl(first, *criteria);
    }
    let spawner = meta.spawners[meta.current];
    proof {
        lemma_chain_at(meta.spawners@, meta.current as int);
    }
    if spawner.spawn_type == SpawnType::Regular {
        let ghost can = spawner.count.can_spawn_more_spec((state.max_alive - state.dead) as usize);
        if spawner.count.can_spawn_more(state.alive()) {
            let ghost before = *meta;
            branch(meta, AdvanceType::RG, table, seed, state, criteria, roll);
            proof {
                lemma_extends_chain(first, before, *meta, *criteria);
                lemma_first_steps_add(first.results@, before.results@, meta.results@, first.advances@.len() as int,
                    AdvanceType::RG, regular_first(), *criteria);
                assert(family_offered(meta.results@, from, *criteria, *roll, first, table, seed, 0, 0, fn_rg(), states_same(state)));
                lemma_family_step(meta.results@, from, from, *criteria, *roll, first, before, table, seed, 0, 0, fn_rg(), states_same(state));
            }
        }
        let ghost rg_hi: int = if can { 1 } else { 0 };
        let alive = state.alive();
        let mut i: usize = 1;
        while i <= alive
            invariant
                first == *old(meta),
                from == first.results@.len(),
                first.extends(*meta, *criteria),
                search_ready(*meta, table, state, *criteria, *roll),
                meta.depth_left() == first.depth_left(),
                state.count < bound,
                alive == state.max_alive - state.dead,
                1 <= i,
                first_steps(first.results@, meta.results@, first.advances@.len() as int, regular_first()),
                family_offered(meta.results@, from, *criteria, *roll, first, table, seed, 0, rg_hi, fn_rg(), states_same(state)),
                family_offered(meta.results@, from, *criteria, *roll, first, table, seed, 1, cap5(i as int), fn_aggressive(), states_any(state)),
            decreases alive + 1 - i,
        {
            let ghost before = *meta;
            if let Some(t) = aggressive_advance(i) {
                let new_state = state.knockout_any(i);
                branch(meta, t, table, seed, new_state, criteria, roll);
                proof {
                    lemma_extends_chain(first, before, *meta, *criteria);
                    lemma_first_steps_add(first.results@, before.results@, meta.results@, first.advances@.len() as int,
                        t, regular_first(), *criteria);
                    lemma_results_prefix(first.results@, before.results@, *criteria);
                    lemma_results_prefix(before.results@, meta.results@, *criteria);
                    lemma_family_grow(before.results@, meta.results@, from, *criteria, *roll, first, table, seed, 0, rg_hi, fn_rg(), states_same(state));
                    lemma_family_grow(before.results@, meta.results@, from, *criteria, *roll, first, table, seed, 1, i as int, fn_aggressive(), states_any(state));
                    assert(fn_aggressive()(i as int) == t);
                    assert(states_any(state)(i as int) == new_state);
                    lemma_family_step(meta.results@, from, before.results@.len() as int, *criteria, *roll, first, before, table, seed, 1, i as int, fn_aggressive(), states_any(state));
                }
            }
            i = i + 1;
        }
        return;
    }
    if state.count == 0 {
        permute_recursion(meta, table, seed, state, criteria, roll);
        return;
    }
    let mut i: usize = 1;
    while i <= state.alive_aggressive
        invariant
            first == *old(meta),
            from == first.results@.len(),
            first.extends(*meta, *criteria),
            search_ready(*meta, table, state, *criteria, *roll),
            meta.depth_left() == first.depth_left(),
            state.count < bound,
            first_steps(first.results@, meta.results@, first.advances@.len() as int, knockout_first()),
            1 <= i,
            family_offered(meta.results@, from, *criteria, *roll, first, table, seed, 1, cap5(i as int), fn_aggressive(), states_aggressive(state)),
        decreases state.alive_aggressive + 1 - i,
    {
        let ghost before = *meta;
        if let Some(t) = aggressive_advance(i) {
            let new_state = state.knockout_aggressive(i);
            branch(meta, t, table, seed, new_state, criteria, roll);
            proof {
                lemma_extends_chain(first, before, *meta, *criteria);
                lemma_first_steps_add(first.results@, before.results@, meta.results@, first.advances@.len() as int,
                    t, knockout_first(), *criteria);
                lemma_results_prefix(first.results@, before.results@, *criteria);
                lemma_results_prefix(before.results@, meta.results@, *criteria);
                lemma_family_grow(before.results@, meta.results@, from, *criteria, *roll, first, table, seed, 1, i as int, fn_aggressive(), states_aggressive(state));
                assert(fn_aggressive()(i as int) == t);
                assert(states_aggressive(state)(i as int) == new_state);
                lemma_family_step(meta.results@, from, before.results@.len() as int, *criteria, *roll, first, before, table, seed, 1, i as int, fn_aggressive(), states_aggressive(state));
            }
        }
        i = i + 1;
    }
    let ghost after_aggressive = *meta;
    if state.alive_oblivious != 0 {
        let mut i: usize = 0;
        while i <= state.alive_aggressive
            invariant
                first == *old(meta),
                from == first.results@.len(),
                first.extends(*meta, *criteria),
                search_ready(*meta, table, state, *criteria, *roll),
                meta.depth_left() == first.depth_left(),
                state.count < bound,
                first_steps(first.results@, meta.results@, first.advances@.len() as int, knockout_first()),
            first_steps(first.results@, meta.results@, first.advances@.len() as int, knockout_first()),
                state.alive_oblivious != 0,
                family_offered(meta.results@, from, *criteria, *roll, first, table, seed, 1, cap5(state.alive_aggressive + 1), fn_aggressive(), states_aggressive(state)),
                family_offered(meta.results@, from, *criteria, *roll, first, table, seed, 1, cap5(i + 1), fn_oblivious(), states_oblivious(state)),
            decreases state.alive_aggressive + 1 - i,
        {
            let ghost before = *meta;
            if let Some(t) = oblivious_advance(i + 1) {
                let new_state = state.knockout_oblivious(i + 1);
                branch(meta, t, table, seed, new_state, criteria, roll);
                proof {
                    lemma_extends_chain(first, before, *meta, *criteria);
                    lemma_first_steps_add(first.results@, before.results@, meta.results@, first.advances@.len() as int,
                        t, knockout_first(), *criteria);
                    lemma_results_prefix(first.results@, before.results@, *criteria);
                    lemma_results_prefix(before.results@, meta.results@, *criteria);
                    lemma_family_grow(before.results@, meta.results@, from, *criteria, *roll, first, table, seed, 1, cap5(state.alive_aggressive + 1), fn_aggressive(), states_aggressive(state));
                    lemma_family_grow(before.results@, meta.results@, from, *criteria, *roll, first, table, seed, 1, i + 1, fn_oblivious(), states_oblivious(state));
                    assert(fn_oblivious()(i + 1) == t);
                    assert(states_oblivious(state)(i + 1) == new_state);
                    lemma_family_step(meta.results@, from, before.results@.len() as int, *criteria, *roll, first, before, table, seed, 1, i + 1, fn_oblivious(), states_oblivious(state));
                }
            }
            i = i + 1;
        }
    }
    if state.alive_beta != 0 {
        let mut i: usize = 0;
        while i <= state.alive_aggressive
            invariant
                first == *old(meta),
                from == first.results@.len(),
                first.extends(*meta, *criteria),
                search_ready(*meta, table, state, *criteria, *roll),
                meta.depth_left() == first.depth_left(),
                state.count < bound,
                first_steps(first.results@, meta.results@, first.advances@.len() as int, knockout_first()),
            first_steps(first.results@, meta.results@, first.advances@.len() as int, knockout_first()),
                state.alive_beta != 0,
                family_offered(meta.results@, from, *criteria, *roll, first, table, seed, 1, cap5(state.alive_aggressive + 1), fn_aggressive(), states_aggressive(state)),
                state.alive_oblivious != 0 ==> family_offered(meta.results@, from, *criteria, *roll, first, table, seed, 1, cap5(state.alive_aggressive + 2), fn_oblivious(), states_oblivious(state)),
                family_offered(meta.results@, from, *criteria, *roll, first, table, seed, 1, cap5(i + 1), fn_beta(), states_beta(state)),
            decreases state.alive_aggressive + 1 - i,
        {
            let ghost before = *meta;
            if let Some(t) = beta_advance(i + 1) {
                let new_state = state.knockout_beta(i + 1);
                branch(meta, t, table, seed, new_state, criteria, roll);
                proof {
                    lemma_extends_chain(first, before, *meta, *criteria);
                    lemma_first_steps_add(first.results@, before.results@, meta.results@, first.advances@.len() as int,
                        t, knockout_first(), *criteria);
                    lemma_results_prefix(first.results@, before.results@, *criteria);
                    lemma_results_prefix(before.results@, meta.results@, *criteria);
                    lemma_family_grow(before.results@, meta.results@, from, *criteria, *roll, first, table, seed, 1, cap5(state.alive_aggressive + 1), fn_aggressive(), states_aggressive(state));
                    if state.alive_oblivious != 0 {
                        lemma_family_grow(before.results@, meta.results@, from, *criteria, *roll, first, table, seed, 1, cap5(state.alive_aggressive + 2), fn_oblivious(), states_oblivious(state));
                    }
                    lemma_family_grow(before.results@, meta.results@, from, *criteria, *roll, first, table, seed, 1, i + 1, fn_beta(), states_beta(state));
                    assert(fn_beta()(i + 1) == t);
                    assert(states_beta(state)(i + 1) == new_state);
                    lemma_family_step(meta.results@, from, before.results@.len() as int, *criteria, *roll, first, before, table, seed, 1, i + 1, fn_beta(), states_beta(state));
                }
            }
            i = i + 1;
        }
    }
    let mut i: usize = 2;
    while i < state.alive_beta
        invariant
            first == *old(meta),
            from == first.results@.len(),
            first.extends(*meta, *criteria),
            search_ready(*meta, table, state, *criteria, *roll),
            meta.depth_left() == first.depth_left(),
            state.count < bound,
            first_steps(first.results@, meta.results@, first.advances@.len() as int, knockout_first()),
            i >= 2,
            family_offered(meta.results@, from, *criteria, *roll, first, table, seed, 1, cap5(state.alive_aggressive + 1), fn_aggressive(), states_aggressive(state)),
            state.alive_oblivious != 0 ==> family_offered(meta.results@, from, *criteria, *roll, first, table, seed, 1, cap5(state.alive_aggressive + 2), fn_oblivious(), states_oblivious(state)),
            state.alive_beta != 0 ==> family_offered(meta.results@, from, *criteria, *roll, first, table, seed, 1, cap5(state.alive_aggressive + 2), fn_beta(), states_beta(state)),
            family_offered(meta.results@, from, *criteria, *roll, first, table, seed, 2, cap5(i as int), fn_scare(), states_scare(state)),
        decreases state.alive_beta - i,
    {
        let ghost before = *meta;
        if let Some(t) = scare_advance(i) {
            let new_state = state.scare(i);
            branch(meta, t, table, seed, new_state, criteria, roll);
            proof {
                lemma_extends_chain(first, before, *meta, *criteria);
                lemma_first_steps_add(first.results@, before.results@, meta.results@, first.advances@.len() as int,
                    t, knockout_first(), *criteria);
                lemma_results_prefix(first.results@, before.results@, *criteria);
                lemma_results_prefix(before.results@, meta.results@, *criteria);
                lemma_family_grow(before.results@, meta.results@, from, *criteria, *roll, first, table, seed, 1, cap5(state.alive_aggressive + 1), fn_aggressive(), states_aggressive(state));
                if state.alive_oblivious != 0 {
                    lemma_family_grow(before.results@, meta.results@, from, *criteria, *roll, first, table, seed, 1, cap5(state.alive_aggressive + 2), fn_oblivious(), states_oblivious(state));
                }
                if state.alive_beta != 0 {
                    lemma_family_grow(before.results@, meta.results@, from, *criteria, *roll, first, table, seed, 1, cap5(state.alive_aggressive + 2), fn_beta(), states_beta(state));
                }
                lemma_family_grow(before.results@, meta.results@, from, *criteria, *roll, first, table, seed, 2, i as int, fn_scare(), states_scare(state));
                assert(fn_scare()(i as int) == t);
                assert(states_scare(state)(i as int) == new_state);
                lemma_family_step(meta.results@, from, before.results@.len() as int, *criteria, *roll, first, before, table, seed, 2, i as int, fn_scare(), states_scare(state));
            }
        }
        i = i + 1;
    }
}

/// Moves the search to the next wave `next`, from the group seed `seed`.
/// The count policy of the next wave is read, never written back: no
/// branch leaks a count seed into its siblings.
fn permute_next_table<F: Fn(&EntityResult, &Vec<Advance>) -> bool, R: Fn(u64, &Vec<SlotDetail>, bool) -> usize>(
    meta: &mut PermuteMeta,
    next: usize,
    seed: u64,
    criteria: &F,
    roll: &R,
)
    requires
        old(meta).wf(),
        search_path(old(meta).advances@, old(meta).max_depth),
        forall|e: &EntityResult, p: &Vec<Advance>| criteria.requires((e, p)),
        forall|d: u64, t: &Vec<SlotDetail>, n: bool| roll.requires((d, t, n)),
        old(meta).spawners@[old(meta).current as int].next == Some(next),
        old(meta).advances@.len() < old(meta).max_depth,
    ensures
        old(meta).extends(*final(meta), *criteria),
        next_wave_offered(final(meta).results@, old(meta).results@.len() as int, *criteria, *roll, *old(meta), seed),
    decreases old(meta).depth_left(), 0int, 0int,
{
    let ghost first = *meta;
    proof {
        lemma_chain_at(meta.spawners@, meta.current as int);
        lemma_chain_at(meta.spawners@, next as int);
        lemma_within_push(first.advances@, Advance { advance_type: AdvanceType::CR, raw: true }, first.max_depth);
    }
    meta.start(Advance { advance_type: AdvanceType::CR, raw: true });
    let current = meta.current;
    meta.current = next;
    let mut node = meta.spawners[next];
    let state = node.get_starting_state();
    let next_table = node.set.table;
    let ghost pushed = *meta;
    permute_outbreak(meta, next_table, seed, state, criteria, roll);
    let ghost searched = *meta;
    meta.current = current;
    meta.end();
    proof {
        lemma_push_pop_extends(first, pushed, searched, *meta, *criteria);
    }
}

/// Branches on every number of ghosts that still fits (one to three, the
/// sizes the catalogue has, and no more than the empty slots), each with
/// the group seed that the ghosts lead to.
fn permute_add_ghosts<F: Fn(&EntityResult, &Vec<Advance>) -> bool, R: Fn(u64, &Vec<SlotDetail>, bool) -> usize>(
    meta: &mut PermuteMeta,
    seed: u64,
    table: u64,
    state: SpawnState,
    criteria: &F,
    roll: &R,
)
    requires
        search_ready(*old(meta), table, state, *criteria, *roll),
        old(meta).advances@.len() < old(meta).max_depth,
        1 <= state.max_alive,
        state.ghosts <= state.max_alive - 1,
    ensures
        old(meta).extends(*final(meta), *criteria),
    decreases old(meta).depth_left(), 0int, 0int,
{
    let ghost first = *meta;
    proof {
        lemma_extends_refl(first, *criteria);
    }
    let remain = state.empty_ghost_slots();
    let mut i: usize = 1;
    while i <= remain
        invariant
            first == *old(meta),
            first.extends(*meta, *criteria),
            search_ready(*meta, table, state, *criteria, *roll),
            meta.advances@.len() < meta.max_depth,
            meta.depth_left() == first.depth_left(),
            remain == state.max_alive - 1 - state.ghosts,
        decreases remain + 1 - i,
    {
        if let Some(t) = ghost_advance(i) {
            if i <= state.max_alive - state.dead {
                let new_state = state.add_ghosts(i);
                let g_seed = get_group_seed(seed, new_state.ghosts);
                let ghost before = *meta;
                proof {
                    lemma_within_push(before.advances@, Advance { advance_type: t, raw: true }, before.max_depth);
                }
                meta.start(Advance { advance_type: t, raw: true });
                let ghost pushed = *meta;
                permute_recursion(meta, table, g_seed, new_state, criteria, roll);
                let ghost searched = *meta;
                meta.end();
                proof {
                    lemma_push_pop_extends(before, pushed, searched, *meta, *criteria);
                    lemma_extends_chain(first, before, *meta, *criteria);
                }
            }
        }
        i = i + 1;
    }
}

/// Writing back a node whose count policy only had its seed redrawn keeps
/// the session well formed.
pub proof fn lemma_node_update_wf(first: PermuteMeta, pushed: PermuteMeta, next: usize, node: SpawnInfo)
    requires
        first.wf(),
        next < first.spawners@.len(),
        pushed.spawners@ == first.spawners@.update(next as int, node),
        pushed.current == next,
        pushed.data == first.data,
        node.set == first.spawners@[next as int].set,
        node.spawn_type == first.spawners@[next as int].spawn_type,
        node.parent == first.spawners@[next as int].parent,
        node.next == first.spawners@[next as int].next,
        node.count.max_alive == first.spawners@[next as int].count.max_alive,
        node.count.min_alive == first.spawners@[next as int].count.min_alive,
    ensures
        pushed.wf(),
        same_graph(first.spawners@, pushed.spawners@),
{
    lemma_same_graph_update(first.spawners@, next as int, node);
    assert forall|n: int| 0 <= n < pushed.spawners@.len() implies has_table(pushed.data, (#[trigger] pushed.spawners@[n]).set.table) by {
        assert(has_table(first.data, first.spawners@[n].set.table));
    }
}

/// Searches every path of advances from `seed` on the chain `spawners`
/// (starting at its first node), at most `max_depth` advances deep before a
/// new wave is entered, and collects each entity that `criteria` accepts
/// with the path that spawns it. `roll` picks a slot from a draw (see
/// `generate`). Every spawn of the first respawn is offered to `criteria`,
/// and each step of the search does the same for the respawns its branches
/// lead to (see `continue_permute`).
pub fn permute<F: Fn(&EntityResult, &Vec<Advance>) -> bool, R: Fn(u64, &Vec<SlotDetail>, bool) -> usize>(
    spawners: Vec<SpawnInfo>,
    data: SpawnData,
    seed: u64,
    max_depth: usize,
    criteria: &F,
    roll: &R,
) -> (r: PermuteMeta)
    requires
        chain_wf(spawners@),
        spawners@.len() >= 1,
        data_wf(data),
        tables_present(spawners@, data),
        forall|e: &EntityResult, p: &Vec<Advance>| criteria.requires((e, p)),
        forall|d: u64, t: &Vec<SlotDetail>, n: bool| roll.requires((d, t, n)),
    ensures
        r.advances@.len() == 0,
        r.current == 0,
        r.max_depth == max_depth,
        r.data == data,
        same_graph(spawners@, r.spawners@),
        forall|k: int| 0 <= k < r.results@.len() ==> accepted(*criteria, #[trigger] r.results@[k]),
        forall|k: int| 0 <= k < r.results@.len() ==> search_path(#[trigger] r.results@[k].advances@, max_depth),
        respawn_offered(r.results@, 0, *criteria, *roll, data, spawners@[0].set.table, Seq::empty(), seed, spawners@[0].starting_state()),
{
    let ghost given = spawners@;
    let mut meta = PermuteMeta {
        spawners,
        current: 0,
        max_depth,
        data,
        results: Vec::new(),
        advances: Vec::new(),
    };
    proof {
        lemma_chain_at(meta.spawners@, 0);
        lemma_same_graph_refl(given);
    }
    let mut node = meta.spawners[0];
    let state = node.get_starting_state();
    let table = node.set.table;
    let ghost first = meta;
    meta.spawners.set(0, node);
    proof {
        lemma_node_update_wf(first, meta, 0, node);
        assert(meta.advances@ =~= Seq::<Advance>::empty());
    }
    let ghost started = meta;
    permute_recursion(&mut meta, table, seed, state, criteria, roll);
    proof {
        lemma_results_from_empty(meta.results@, *criteria);
        reveal(results_within);
    }
    meta
}

/// One step of a replay: the advance taken, the state and group seed after
/// it, and the count seed of the spawner it happened on.
#[derive(Copy, Clone, Debug)]
pub struct SpawnStep {
    pub step: Advance,
    pub state: SpawnState,
    pub seed: u64,
    pub count_seed: u64,
}

impl SpawnStep {
    /// The advance's code, the state's letter code, the entities left, then
    /// the group seed and the count seed in hex, separated by spaces.
    pub open spec fn summary_spec(&self) -> Seq<char> {
        crate::advance::type_code(self.step.advance_type) + seq![' '] + self.state.state_code() + seq![' ']
            + crate::text::decimal(self.state.count as nat) + seq![' '] + crate::text::hex16(self.seed)
            + seq![' '] + crate::text::hex16(self.count_seed)
    }

    pub fn step_summary(&self) -> (r: String)
        requires
            self.state.wf(),
            self.state.ghosts <= self.state.dead,
        ensures
            r@ == self.summary_spec(),
    {
        proof {
            reveal_strlit(" ");
        }
        let mut s = self.step.advance_type.to_string();
        s.append(" ");
        let code = self.state.get_state();
        s.append(code.as_str());
        s.append(" ");
        crate::text::push_decimal(&mut s, self.state.count);
        s.append(" ");
        crate::text::push_hex16(&mut s, self.seed);
        s.append(" ");
        crate::text::push_hex16(&mut s, self.count_seed);
        proof {
            assert(s@ =~= self.summary_spec());
        }
        s
    }
}


/// The node the replay stands on after `path`: a clear-remaining step off a
/// wave spawner moves to its next wave.
pub open spec fn node_after(nodes: Seq<SpawnInfo>, start: usize, path: Seq<Advance>) -> usize
    decreases path.len(),
{
    if path.len() == 0 {
        start
    } else {
        let n = node_after(nodes, start, path.drop_last());
        if path.last().advance_type == AdvanceType::CR && nodes[n as int].spawn_type != SpawnType::Regular {
            match nodes[n as int].next {
                Some(m) => m,
                None => n,
            }
        } else {
            n
        }
    }
}

/// Every clear-remaining step of `path` off a wave spawner has a next wave.
pub open spec fn waves_exist(nodes: Seq<SpawnInfo>, start: usize, path: Seq<Advance>) -> bool {
    forall|j: int|
        0 <= j < path.len() && (#[trigger] path[j]).advance_type == AdvanceType::CR
            && nodes[node_after(nodes, start, path.subrange(0, j)) as int].spawn_type != SpawnType::Regular
            ==> nodes[node_after(nodes, start, path.subrange(0, j)) as int].next.is_some()
}

/// The node, state and group seed after the search takes `adv` from `state`
/// on `node`, before the respawn that follows; `None` when the advance
/// cannot be taken there.
pub open spec fn advance_step(
    nodes: Seq<SpawnInfo>,
    node: usize,
    adv: Advance,
    state: SpawnState,
    seed: u64,
) -> Option<(usize, SpawnState, u64)> {
    let t = adv.advance_type;
    let n = nodes[node as int];
    let c = crate::advance::type_count(t) as int;
    if n.spawn_type == SpawnType::Regular {
        if t == AdvanceType::RG {
            Some((node, state, seed))
        } else if is_wave_step(t) {
            None
        } else {
            Some((node, state.removed(state.any_split(c).0, state.any_split(c).1, state.any_split(c).2), seed))
        }
    } else if t == AdvanceType::RG {
        None
    } else if t == AdvanceType::CR {
        match n.next {
            Some(m) => Some((m, nodes[m as int].starting_state(), seed)),
            None => None,
        }
    } else if is_wave_step(t) {
        if state.count != 0 || state.max_alive == 0 || state.ghosts >= state.max_alive || c > state.max_alive - 1
            - state.ghosts || c > state.max_alive - state.dead {
            None
        } else {
            Some((node, state.ghosted(c), group_seed_after(seed, (state.ghosts + c) as nat)))
        }
    } else {
        let r = crate::advance::removals(t);
        if state.can_remove(r.0, r.1, r.2) {
            Some((node, state.removed(r.0, r.1, r.2), seed))
        } else {
            None
        }
    }
}

/// Applies `adv` to `state` on the node at `node`, as the search does when
/// it branches on it.
fn apply_advance(nodes: &Vec<SpawnInfo>, node: usize, adv: Advance, state: SpawnState, seed: u64) -> (r: Option<(usize, SpawnState, u64)>)
    requires
        chain_wf(nodes@),
        node < nodes@.len(),
        state.wf(),
        state.max_alive < 0xFFFF_FFFF,
    ensures
        r == advance_step(nodes@, node, adv, state, seed),
        r matches Some(p) ==> p.0 < nodes@.len() && p.1.wf() && p.1.max_alive < 0xFFFF_FFFF,
{
    proof {
        lemma_chain_at(nodes@, node as int);
    }
    let n = nodes[node];
    let t = adv.advance_type;
    let count = adv.advance_count();
    if n.retain_existing() {
        if t == AdvanceType::RG {
            return Some((node, state, seed));
        }
        if t == AdvanceType::CR || t == AdvanceType::G1 || t == AdvanceType::G2 || t == AdvanceType::G3 {
            return None;
        }
        return Some((node, state.knockout_any(count), seed));
    }
    if t == AdvanceType::RG {
        return None;
    }
    if t == AdvanceType::CR {
        let next = match n.get_next_wave() {
            Some(m) => m,
            None => return None,
        };
        proof {
            lemma_chain_at(nodes@, next as int);
        }
        let mut next_node = nodes[next];
        let new_state = next_node.get_starting_state();
        return Some((next, new_state, seed));
    }
    if t == AdvanceType::G1 || t == AdvanceType::G2 || t == AdvanceType::G3 {
        if state.count != 0 || state.max_alive == 0 || state.ghosts >= state.max_alive
            || count > state.max_alive - 1 - state.ghosts || count > state.max_alive - state.dead {
            return None;
        }
        let new_state = state.add_ghosts(count);
        let g_seed = get_group_seed(seed, new_state.ghosts);
        return Some((node, new_state, g_seed));
    }
    let (aggro, beta, oblivious) = adv.get_removals();
    if aggro > state.alive_aggressive || beta > state.alive_beta || oblivious > state.alive_oblivious {
        return None;
    }
    Some((node, adv.advance_state(state), seed))
}

/// Step `j` of a replay of `advs` from `start`, with `base` the path before
/// it: `steps[2j + 1]` is the advance taken from `steps[2j]`, and
/// `steps[2j + 2]` the respawn after it, which offered every spawn to
/// `criteria` under the path so far.
pub open spec fn replay_step<F: Fn(&EntityResult, &Vec<Advance>) -> bool, R: Fn(u64, &Vec<SlotDetail>, bool) -> usize>(
    nodes: Seq<SpawnInfo>,
    start: usize,
    data: SpawnData,
    base: Seq<Advance>,
    advs: Seq<Advance>,
    steps: Seq<SpawnStep>,
    j: int,
    results: Seq<PermuteResult>,
    from: int,
    criteria: F,
    roll: R,
) -> bool {
    let node = node_after(nodes, start, advs.subrange(0, j));
    let next = node_after(nodes, start, advs.subrange(0, j + 1));
    let prev = steps[2 * j];
    let mid = steps[2 * j + 1];
    let post = steps[2 * j + 2];
    &&& mid.step == advs[j]
    &&& advance_step(nodes, node, advs[j], prev.state, prev.seed) == Some((next, mid.state, mid.seed))
    &&& post.step == (Advance { advance_type: AdvanceType::RG, raw: true })
    &&& mid.state.count != 0 && mid.state.dead != 0 ==> post.seed == group_seed_after(mid.seed, mid.state.dead as nat)
        && respawned(mid.state, post.state)
    &&& !(mid.state.count != 0 && mid.state.dead != 0) ==> post.state == mid.state && post.seed == mid.seed
    &&& respawn_offered(results, from, criteria, roll, data, nodes[next as int].set.table, base + advs.subrange(0, j + 1), mid.seed, mid.state)
}

/// Replays `advances` from `seed` on the node at `meta.current`: the first
/// respawn, then each advance as the search takes it, each followed by the
/// respawn it leads to while entities remain. Every spawn of each respawn
/// is offered to `criteria` under the path taken so far, and those it
/// accepts are recorded. The session is read, never written. A clear-
/// remaining step needs a next wave; the replay stops early only at an
/// advance that cannot be taken from the state reached. Returns the steps:
/// the first respawn, then for each advance taken its own step and the
/// respawn after it.
#[verifier::rlimit(100)]
pub fn run_forwards<F: Fn(&EntityResult, &Vec<Advance>) -> bool, R: Fn(u64, &Vec<SlotDetail>, bool) -> usize>(
    meta: &mut PermuteMeta,
    advances: &[Advance],
    seed: u64,
    criteria: &F,
    roll: &R,
) -> (steps: Vec<SpawnStep>)
    requires
        old(meta).wf(),
        waves_exist(old(meta).spawners@, old(meta).current, advances@),
        forall|e: &EntityResult, p: &Vec<Advance>| criteria.requires((e, p)),
        forall|d: u64, t: &Vec<SlotDetail>, n: bool| roll.requires((d, t, n)),
    ensures
        old(meta).extends_core(*final(meta), *criteria),
        steps@.len() % 2 == 1,
        steps@.len() <= 2 * advances@.len() + 1,
        steps@[0].step == (Advance { advance_type: AdvanceType::RG, raw: true }),
        ({
            let start = old(meta).spawners@[old(meta).current as int].starting_state();
            &&& start.count == 0 ==> steps@[0].state == start && steps@[0].seed == seed
            &&& start.count != 0 ==> steps@[0].seed == group_seed_after(seed, start.dead as nat)
                && respawned(start, steps@[0].state)
            &&& respawn_offered(final(meta).results@, old(meta).results@.len() as int, *criteria, *roll, old(meta).data,
                old(meta).spawners@[old(meta).current as int].set.table, old(meta).advances@, seed, start)
        }),
        forall|j: int| 0 <= j < (steps@.len() - 1) / 2 ==> #[trigger] replay_step(old(meta).spawners@, old(meta).current,
            old(meta).data, old(meta).advances@, advances@, steps@, j, final(meta).results@,
            old(meta).results@.len() as int, *criteria, *roll),
        ({
            let applied = (steps@.len() - 1) / 2;
            applied < advances@.len() ==> advance_step(old(meta).spawners@, node_after(old(meta).spawners@,
                old(meta).current, advances@.subrange(0, applied)), advances@[applied], steps@[2 * applied].state,
                steps@[2 * applied].seed) is None
        }),
{
    let ghost first = *meta;
    let ghost from = first.results@.len() as int;
    let ghost nodes = first.spawners@;
    let start_node = meta.current;
    let base_len = meta.advances.len();
    proof {
        lemma_chain_at(meta.spawners@, meta.current as int);
        lemma_results_refl(first.results@, *criteria);
    }
    let mut node = meta.spawners[meta.current];
    let start_state = node.get_starting_state();
    let table = node.set.table;
    let ghost seed0 = seed;
    let (mut seed, mut state) = update_respawn(meta, table, seed, start_state, criteria, roll);
    proof {
        lemma_results_prefix(first.results@, meta.results@, *criteria);
    }
    let mut steps: Vec<SpawnStep> = Vec::new();
    steps.push(SpawnStep {
        step: Advance { advance_type: AdvanceType::RG, raw: true },
        state,
        seed,
        count_seed: meta.spawners[meta.current].count.count_seed,
    });
    let ghost first_step = steps@[0];
    let ghost after_first = meta.results@;
    let mut i: usize = 0;
    let mut node_idx: usize = start_node;
    let mut stopped = false;
    proof {
        assert(advances@.subrange(0, 0) =~= Seq::<Advance>::empty());
        assert(meta.advances@ =~= first.advances@ + advances@.subrange(0, 0));
    }
    while i < advances.len() && !stopped
        invariant
            first.wf(),
            nodes == first.spawners@,
            from == first.results@.len(),
            i <= advances@.len(),
            base_len == first.advances@.len(),
            start_node == first.current,
            meta.spawners == first.spawners,
            meta.data == first.data,
            meta.max_depth == first.max_depth,
            meta.current == node_idx,
            node_idx < nodes.len(),
            node_idx == node_after(nodes, start_node, advances@.subrange(0, i as int)),
            meta.advances@ == first.advances@ + advances@.subrange(0, i as int),
            results_extend(first.results@, meta.results@, *criteria),
            steps@.len() == 2 * i + 1,
            steps@[0] == first_step,
            after_first.len() <= meta.results@.len(),
            forall|k: int| 0 <= k < after_first.len() ==> meta.results@[k] == #[trigger] after_first[k],
            start_state == first.spawners@[first.current as int].starting_state(),
            table == first.spawners@[first.current as int].set.table,
            start_state.count == 0 ==> first_step.state == start_state && first_step.seed == seed0,
            start_state.count != 0 ==> first_step.seed == group_seed_after(seed0, start_state.dead as nat)
                && respawned(start_state, first_step.state),
            first_step.step == (Advance { advance_type: AdvanceType::RG, raw: true }),
            respawn_offered(meta.results@, from, *criteria, *roll, first.data, table, first.advances@, seed0, start_state),
            forall|j: int| 0 <= j < i ==> #[trigger] replay_step(nodes, start_node, first.data, first.advances@, advances@, steps@, j, meta.results@, from, *criteria, *roll),
            state == steps@[2 * i as int].state,
            seed == steps@[2 * i as int].seed,
            state.wf(),
            state.max_alive < 0xFFFF_FFFF,
            stopped ==> i < advances@.len() && advance_step(nodes, node_idx, advances@[i as int], state, seed) is None,
            forall|e: &EntityResult, p: &Vec<Advance>| criteria.requires((e, p)),
            forall|d: u64, t: &Vec<SlotDetail>, n: bool| roll.requires((d, t, n)),
        decreases advances@.len() - i, if stopped { 0int } else { 1int },
    {
        let adv = advances[i];
        match apply_advance(&meta.spawners, node_idx, adv, state, seed) {
            None => {
                stopped = true;
            },
            Some((n2, s2, seed2)) => {
                let ghost before = *meta;
                let ghost old_steps = steps@;
                meta.advances.push(adv);
                meta.current = n2;
                proof {
                    let p = advances@.subrange(0, i + 1);
                    assert(p.drop_last() =~= advances@.subrange(0, i as int));
                    assert(p.last() == adv);
                    assert(meta.advances@ =~= first.advances@ + p);
                }
                steps.push(SpawnStep { step: adv, state: s2, seed: seed2, count_seed: meta.spawners[n2].count.count_seed });
                let mut s3 = s2;
                let mut seed3 = seed2;
                if s2.count != 0 && s2.dead != 0 {
                    let next_table = meta.spawners[n2].set.table;
                    let (a, b) = update_respawn(meta, next_table, seed2, s2, criteria, roll);
                    seed3 = a;
                    s3 = b;
                } else {
                    proof {
                        lemma_results_refl(meta.results@, *criteria);
                    }
                }
                steps.push(SpawnStep {
                    step: Advance { advance_type: AdvanceType::RG, raw: true },
                    state: s3,
                    seed: seed3,
                    count_seed: meta.spawners[n2].count.count_seed,
                });
                proof {
                    lemma_results_prefix(first.results@, before.results@, *criteria);
                    lemma_results_prefix(before.results@, meta.results@, *criteria);
                    lemma_results_trans(first.results@, before.results@, meta.results@, *criteria);
                    assert forall|j: int| 0 <= j < i + 1 implies #[trigger] replay_step(nodes, start_node, first.data, first.advances@,
                        advances@, steps@, j, meta.results@, from, *criteria, *roll) by {
                        if j < i {
                            assert(replay_step(nodes, start_node, first.data, first.advances@, advances@, old_steps, j,
                                before.results@, from, *criteria, *roll));
                            assert(steps@[2 * j] == old_steps[2 * j]);
                            assert(steps@[2 * j + 1] == old_steps[2 * j + 1]);
                            assert(steps@[2 * j + 2] == old_steps[2 * j + 2]);
                            let nx = node_after(nodes, start_node, advances@.subrange(0, j + 1));
                            lemma_offered_grow(before.results@, meta.results@, from, from, *criteria, *roll, first.data,
                                nodes[nx as int].set.table, first.advances@ + advances@.subrange(0, j + 1),
                                old_steps[2 * j + 1].seed, old_steps[2 * j + 1].state);
                        } else {
                            lemma_offered_grow(meta.results@, meta.results@, before.results@.len() as int, from, *criteria, *roll,
                                first.data, nodes[n2 as int].set.table, first.advances@ + advances@.subrange(0, i + 1), seed2, s2);
                        }
                    }
                    lemma_offered_grow(before.results@, meta.results@, from, from, *criteria, *roll, first.data, table,
                        first.advances@, seed0, start_state);
                }
                state = s3;
                seed = seed3;
                node_idx = n2;
                i = i + 1;
            },
        }
    }
    let ghost after_loop = *meta;
    while meta.advances.len() > base_len
        invariant
            base_len == first.advances@.len(),
            meta.spawners == after_loop.spawners,
            meta.results == after_loop.results,
            meta.data == after_loop.data,
            meta.max_depth == after_loop.max_depth,
            meta.current == after_loop.current,
            meta.advances@.len() >= first.advances@.len(),
            meta.advances@.subrange(0, first.advances@.len() as int) == first.advances@,
        decreases meta.advances@.len(),
    {
        let ghost before_pop = meta.advances@;
        meta.advances.pop();
        proof {
            assert(meta.advances@.subrange(0, first.advances@.len() as int) =~= before_pop.subrange(0, first.advances@.len() as int));
        }
    }
    meta.current = start_node;
    proof {
        assert(after_loop.advances@.subrange(0, first.advances@.len() as int) =~= first.advances@);
        assert(meta.advances@ =~= first.advances@);
    }
    steps
}

} // verus!
