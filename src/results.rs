//! Relations between the matches of a search, used to group them for
//! reporting.

use vstd::prelude::*;
use crate::advance::{is_prefix_chain, same_chain, Advance, AdvanceType};
use crate::permuter::{copy_path, PermuteMeta, PermuteResult};

verus! {

/// Whether `parent` is a strictly shorter path whose advance types start `child`.
pub fn is_subset(parent: &[Advance], child: &[Advance]) -> (r: bool)
    ensures
        r == is_prefix_chain(parent@, child@),
{
    if parent.len() >= child.len() {
        return false;
    }
    let mut i: usize = 0;
    while i < parent.len()
        invariant
            parent@.len() < child@.len(),
            i <= parent@.len(),
            forall|j: int| 0 <= j < i ==> #[trigger] parent@[j].advance_type == child@[j].advance_type,
        decreases parent@.len() - i,
    {
        if parent[i].advance_type != child[i].advance_type {
            return false;
        }
        i = i + 1;
    }
    true
}

/// Number of clear-remaining advances along a path.
pub open spec fn wave_count(path: Seq<Advance>) -> nat
    decreases path.len(),
{
    if path.len() == 0 {
        0
    } else {
        wave_count(path.drop_last()) + if path.last().advance_type == AdvanceType::CR { 1nat } else { 0 }
    }
}

/// Some advance of `path` has a type that `p` accepts.
pub open spec fn any_type(path: Seq<Advance>, p: spec_fn(AdvanceType) -> bool) -> bool {
    exists|i: int| 0 <= i < path.len() && p(#[trigger] path[i].advance_type)
}

pub open spec fn multi_scare(t: AdvanceType) -> bool {
    t == AdvanceType::S2 || t == AdvanceType::S3 || t == AdvanceType::S4
}

pub open spec fn multi_beta(t: AdvanceType) -> bool {
    t == AdvanceType::B2 || t == AdvanceType::B3 || t == AdvanceType::B4
}

pub open spec fn multi_oblivious(t: AdvanceType) -> bool {
    t == AdvanceType::O2 || t == AdvanceType::O3 || t == AdvanceType::O4
}

pub open spec fn multi_aggressive(t: AdvanceType) -> bool {
    t == AdvanceType::A2 || t == AdvanceType::A3 || t == AdvanceType::A4
}

pub open spec fn single_beta(t: AdvanceType) -> bool {
    t == AdvanceType::B1
}

/// The note on how a path can be played, by the kinds of advance it uses.
pub open spec fn feasibility(path: Seq<Advance>) -> Seq<char> {
    if any_type(path, |t| multi_scare(t)) {
        if any_type(path, |t| multi_beta(t)) {
            " -- Skittish: Multi scaring with aggressive!"@
        } else {
            " -- Skittish: Multi scaring!"@
        }
    } else if any_type(path, |t| multi_beta(t)) {
        " -- Skittish: Aggressive!"@
    } else if any_type(path, |t| single_beta(t)) {
        if !any_type(path, |t| multi_aggressive(t)) {
            " -- Skittish: Single advances!"@
        } else {
            " -- Skittish: Mostly aggressive!"@
        }
    } else if any_type(path, |t| multi_oblivious(t)) {
        " -- Oblivious: Aggressive!"@
    } else if any_type(path, |t| multi_aggressive(t)) {
        ""@
    } else {
        " -- Single Advances!"@
    }
}

/// Whether some advance of `path` has a type that `p` accepts.
fn find_type(path: &[Advance], Ghost(p): Ghost<spec_fn(AdvanceType) -> bool>, which: u8) -> (r: bool)
    requires
        which <= 4,
        which == 0 ==> p == (|t| multi_scare(t)),
        which == 1 ==> p == (|t| multi_beta(t)),
        which == 2 ==> p == (|t| single_beta(t)),
        which == 3 ==> p == (|t| multi_oblivious(t)),
        which == 4 ==> p == (|t| multi_aggressive(t)),
    ensures
        r == any_type(path@, p),
{
    let mut i: usize = 0;
    while i < path.len()
        invariant
            i <= path@.len(),
            which <= 4,
            which == 0 ==> p == (|t| multi_scare(t)),
            which == 1 ==> p == (|t| multi_beta(t)),
            which == 2 ==> p == (|t| single_beta(t)),
            which == 3 ==> p == (|t| multi_oblivious(t)),
            which == 4 ==> p == (|t| multi_aggressive(t)),
            forall|j: int| 0 <= j < i ==> !p(#[trigger] path@[j].advance_type),
        decreases path@.len() - i,
    {
        let a = path[i];
        let hit = if which == 0 {
            a.is_multi_scare()
        } else if which == 1 {
            a.is_multi_beta()
        } else if which == 2 {
            a.advance_type == AdvanceType::B1
        } else if which == 3 {
            a.is_multi_oblivious()
        } else {
            a.is_multi_aggressive()
        };
        if hit {
            proof {
                assert(p(path@[i as int].advance_type));
            }
            return true;
        }
        i = i + 1;
    }
    false
}

impl PermuteResult {
    pub fn is_bonus(&self) -> (r: bool)
        ensures
            r == (wave_count(self.advances@) > 0),
    {
        self.wave_index() != 0
    }

    pub fn wave_index(&self) -> (r: usize)
        ensures
            r == wave_count(self.advances@),
    {
        let mut n: usize = 0;
        let mut i: usize = 0;
        while i < self.advances.len()
            invariant
                i <= self.advances@.len(),
                n == wave_count(self.advances@.subrange(0, i as int)),
                n <= i,
            decreases self.advances@.len() - i,
        {
            proof {
                assert(self.advances@.subrange(0, i + 1).drop_last() =~= self.advances@.subrange(0, i as int));
            }
            if self.advances[i].advance_type == AdvanceType::CR {
                n = n + 1;
            }
            i = i + 1;
        }
        proof {
            assert(self.advances@.subrange(0, self.advances@.len() as int) =~= self.advances@);
        }
        n
    }

    pub fn get_feasibility(&self, advances: &[Advance]) -> (r: &'static str)
        ensures
            r@ == feasibility(advances@),
    {
        if find_type(advances, Ghost(|t: AdvanceType| multi_scare(t)), 0) {
            if find_type(advances, Ghost(|t: AdvanceType| multi_beta(t)), 1) {
                return " -- Skittish: Multi scaring with aggressive!";
            }
            return " -- Skittish: Multi scaring!";
        }
        if find_type(advances, Ghost(|t: AdvanceType| multi_beta(t)), 1) {
            return " -- Skittish: Aggressive!";
        }
        if find_type(advances, Ghost(|t: AdvanceType| single_beta(t)), 2) {
            if !find_type(advances, Ghost(|t: AdvanceType| multi_aggressive(t)), 4) {
                return " -- Skittish: Single advances!";
            }
            return " -- Skittish: Mostly aggressive!";
        }
        if find_type(advances, Ghost(|t: AdvanceType| multi_oblivious(t)), 3) {
            return " -- Oblivious: Aggressive!";
        }
        if find_type(advances, Ghost(|t: AdvanceType| multi_aggressive(t)), 4) {
            return "";
        }
        " -- Single Advances!"
    }
}

impl PermuteMeta {
    /// Whether the match after `index` continues the path `parent`.
    pub fn has_child_chain(&self, index: usize, parent: &[Advance]) -> (r: bool)
        ensures
            r == (index + 1 < self.results@.len() && is_prefix_chain(
                parent@,
                self.results@[index + 1].advances@,
            )),
    {
        if index >= self.results.len() || index + 1 >= self.results.len() {
            false
        } else {
            is_subset(parent, self.results[index + 1].advances.as_slice())
        }
    }

    /// Whether a match next to `index` (the one before it, or the one after
    /// it) was reached by the same chain as `child`.
    pub fn is_action_multi_result(&self, index: usize, child: &[Advance]) -> (r: bool)
        ensures
            r == ((0 < index && index <= self.results@.len() && same_chain(
                self.results@[index - 1].advances@,
                child@,
            )) || (index + 1 < self.results@.len() && same_chain(
                self.results@[index + 1].advances@,
                child@,
            )) || (index > self.results@.len() && self.results@.len() > 0 && same_chain(
                self.results@[self.results@.len() - 1].advances@,
                child@,
            ))),
    {
        let len = self.results.len();
        let back = if index < len { index } else { len };
        if back > 0 && Advance::sequence_eq(self.results[back - 1].advances.as_slice(), child) {
            return true;
        }
        if index < len && index + 1 < len && Advance::sequence_eq(
            self.results[index + 1].advances.as_slice(),
            child,
        ) {
            return true;
        }
        false
    }

    /// Position of the first match, among the `index - 1` that start at
    /// `index - 1`, whose path is a shorter start of `child`; none for the
    /// first two matches.
    pub fn find_nearest_parent_index(&self, index: usize, child: &[Advance]) -> (r: Option<usize>)
        ensures
            match r {
                Some(k) => {
                    &&& index >= 2
                    &&& index - 1 <= k < 2 * (index - 1)
                    &&& k < self.results@.len()
                    &&& is_prefix_chain(self.results@[k as int].advances@, child@)
                    &&& forall|j: int|
                        index - 1 <= j < k ==> !is_prefix_chain(
                            #[trigger] self.results@[j].advances@,
                            child@,
                        )
                },
                None => index < 2 || forall|j: int|
                    index - 1 <= j < 2 * (index - 1) && j < self.results@.len() ==> !is_prefix_chain(
                        #[trigger] self.results@[j].advances@,
                        child@,
                    ),
            },
    {
        if index < 2 {
            return None;
        }
        let start = index - 1;
        let mut k: usize = start;
        let mut taken: usize = 0;
        while taken < start && k < self.results.len()
            invariant
                start == index - 1,
                index >= 2,
                k == start + taken,
                taken <= start,
                forall|j: int| start <= j < k ==> !is_prefix_chain(#[trigger] self.results@[j].advances@, child@),
            decreases start - taken,
        {
            if is_subset(self.results[k].advances.as_slice(), child) {
                return Some(k);
            }
            k = k + 1;
            taken = taken + 1;
        }
        None
    }

    /// The nearest earlier match whose path is a shorter start of `child`
    /// (see `find_nearest_parent_index`), with its path copied.
    pub fn find_nearest_parent_advance_result(&self, index: usize, child: &[Advance]) -> (r: Option<PermuteResult>)
        ensures
            r matches Some(p) ==> index >= 2 && is_prefix_chain(p.advances@, child@),
            r is None <==> (index < 2 || forall|j: int|
                index - 1 <= j < 2 * (index - 1) && j < self.results@.len() ==> !is_prefix_chain(
                    #[trigger] self.results@[j].advances@,
                    child@,
                )),
    {
        match self.find_nearest_parent_index(index, child) {
            Some(k) => {
                let found = &self.results[k];
                Some(PermuteResult { advances: copy_path(&found.advances), entity: found.entity.clone() })
            },
            None => None,
        }
    }
}

} // verus!
