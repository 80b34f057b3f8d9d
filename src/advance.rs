//! The closed set of player actions that the search branches over.

use vstd::prelude::*;
use crate::spawn_state::SpawnState;

verus! {

#[derive(Copy, Clone, Debug, PartialEq, Eq, Structural, PartialOrd, Ord, Hash)]
pub enum AdvanceType {
    RG,
    CR,
    A1,
    A2,
    A3,
    A4,
    B1,
    B2,
    B3,
    B4,
    O1,
    O2,
    O3,
    O4,
    S2,
    S3,
    S4,
    G1,
    G2,
    G3,
}

/// Position of a variant in the catalogue.
pub open spec fn type_index(t: AdvanceType) -> nat {
    match t {
        AdvanceType::RG => 0,
        AdvanceType::CR => 1,
        AdvanceType::A1 => 2,
        AdvanceType::A2 => 3,
        AdvanceType::A3 => 4,
        AdvanceType::A4 => 5,
        AdvanceType::B1 => 6,
        AdvanceType::B2 => 7,
        AdvanceType::B3 => 8,
        AdvanceType::B4 => 9,
        AdvanceType::O1 => 10,
        AdvanceType::O2 => 11,
        AdvanceType::O3 => 12,
        AdvanceType::O4 => 13,
        AdvanceType::S2 => 14,
        AdvanceType::S3 => 15,
        AdvanceType::S4 => 16,
        AdvanceType::G1 => 17,
        AdvanceType::G2 => 18,
        AdvanceType::G3 => 19,
    }
}

/// The variant at position `i`; positions past the end give the last one.
pub open spec fn type_at(i: int) -> AdvanceType {
    if i == 0 { AdvanceType::RG }
    else if i == 1 { AdvanceType::CR }
    else if i == 2 { AdvanceType::A1 }
    else if i == 3 { AdvanceType::A2 }
    else if i == 4 { AdvanceType::A3 }
    else if i == 5 { AdvanceType::A4 }
    else if i == 6 { AdvanceType::B1 }
    else if i == 7 { AdvanceType::B2 }
    else if i == 8 { AdvanceType::B3 }
    else if i == 9 { AdvanceType::B4 }
    else if i == 10 { AdvanceType::O1 }
    else if i == 11 { AdvanceType::O2 }
    else if i == 12 { AdvanceType::O3 }
    else if i == 13 { AdvanceType::O4 }
    else if i == 14 { AdvanceType::S2 }
    else if i == 15 { AdvanceType::S3 }
    else if i == 16 { AdvanceType::S4 }
    else if i == 17 { AdvanceType::G1 }
    else if i == 18 { AdvanceType::G2 }
    else { AdvanceType::G3 }
}

/// Short code of a variant.
pub open spec fn type_code(t: AdvanceType) -> Seq<char> {
    match t {
        AdvanceType::RG => "RG"@,
        AdvanceType::CR => "CR"@,
        AdvanceType::A1 => "A1"@,
        AdvanceType::A2 => "A2"@,
        AdvanceType::A3 => "A3"@,
        AdvanceType::A4 => "A4"@,
        AdvanceType::B1 => "B1"@,
        AdvanceType::B2 => "B2"@,
        AdvanceType::B3 => "B3"@,
        AdvanceType::B4 => "B4"@,
        AdvanceType::O1 => "O1"@,
        AdvanceType::O2 => "O2"@,
        AdvanceType::O3 => "O3"@,
        AdvanceType::O4 => "O4"@,
        AdvanceType::S2 => "S2"@,
        AdvanceType::S3 => "S3"@,
        AdvanceType::S4 => "S4"@,
        AdvanceType::G1 => "G1"@,
        AdvanceType::G2 => "G2"@,
        AdvanceType::G3 => "G3"@,
    }
}

/// Long, readable name of a variant; regeneration has none.
pub open spec fn human_name(t: AdvanceType) -> Seq<char> {
    match t {
        AdvanceType::RG => Seq::empty(),
        AdvanceType::CR => "Clear Remaining"@,
        AdvanceType::A1 => "1 Aggressive"@,
        AdvanceType::A2 => "2 Aggressive"@,
        AdvanceType::A3 => "3 Aggressive"@,
        AdvanceType::A4 => "4 Aggressive"@,
        AdvanceType::B1 => "1 Beta"@,
        AdvanceType::B2 => "1 Beta + 1 Aggressive"@,
        AdvanceType::B3 => "1 Beta + 2 Aggressive"@,
        AdvanceType::B4 => "1 Beta + 3 Aggressive"@,
        AdvanceType::O1 => "1 Oblivious"@,
        AdvanceType::O2 => "1 Oblivious + 1 Aggressive"@,
        AdvanceType::O3 => "1 Oblivious + 2 Aggressive"@,
        AdvanceType::O4 => "1 Oblivious + 3 Aggressive"@,
        AdvanceType::S2 => "Multi Scare 2 + Leave"@,
        AdvanceType::S3 => "Multi Scare 3 + Leave"@,
        AdvanceType::S4 => "Multi Scare 4 + Leave"@,
        AdvanceType::G1 => "De-spawn 1 + Leave"@,
        AdvanceType::G2 => "De-spawn 2 + Leave"@,
        AdvanceType::G3 => "De-spawn 3 + Leave"@,
    }
}

/// How many individuals a variant consumes.
pub open spec fn type_count(t: AdvanceType) -> nat {
    match t {
        AdvanceType::RG => 0,
        AdvanceType::CR => 0,
        AdvanceType::A1 => 1,
        AdvanceType::A2 => 2,
        AdvanceType::A3 => 3,
        AdvanceType::A4 => 4,
        AdvanceType::B1 => 1,
        AdvanceType::B2 => 2,
        AdvanceType::B3 => 3,
        AdvanceType::B4 => 4,
        AdvanceType::O1 => 1,
        AdvanceType::O2 => 2,
        AdvanceType::O3 => 3,
        AdvanceType::O4 => 4,
        AdvanceType::S2 => 2,
        AdvanceType::S3 => 3,
        AdvanceType::S4 => 4,
        AdvanceType::G1 => 1,
        AdvanceType::G2 => 2,
        AdvanceType::G3 => 3,
    }
}

/// The aggressive/beta/oblivious knockouts and scares, which remove live entities.
pub open spec fn removes_entities(t: AdvanceType) -> bool {
    !(t == AdvanceType::RG || t == AdvanceType::CR || t == AdvanceType::G1
        || t == AdvanceType::G2 || t == AdvanceType::G3)
}

/// `(aggressive, beta, oblivious)` removed by a variant that removes entities.
pub open spec fn removals(t: AdvanceType) -> (int, int, int) {
    let n = type_count(t) as int;
    match t {
        AdvanceType::A1 | AdvanceType::A2 | AdvanceType::A3 | AdvanceType::A4 => (n, 0, 0),
        AdvanceType::B1 | AdvanceType::B2 | AdvanceType::B3 | AdvanceType::B4 => (n - 1, 1, 0),
        AdvanceType::S2 | AdvanceType::S3 | AdvanceType::S4 => (0, n, 0),
        AdvanceType::O1 | AdvanceType::O2 | AdvanceType::O3 | AdvanceType::O4 => (n - 1, 0, 1),
        _ => (0, 0, 0),
    }
}

impl AdvanceType {
    /// The variant at position `num`; positions past the end give the last one.
    pub fn from_index(num: usize) -> (r: AdvanceType)
        ensures
            r == type_at(num as int),
            num < 20 ==> type_index(r) == num,
    {
        match num {
            0 => AdvanceType::RG,
            1 => AdvanceType::CR,
            2 => AdvanceType::A1,
            3 => AdvanceType::A2,
            4 => AdvanceType::A3,
            5 => AdvanceType::A4,
            6 => AdvanceType::B1,
            7 => AdvanceType::B2,
            8 => AdvanceType::B3,
            9 => AdvanceType::B4,
            10 => AdvanceType::O1,
            11 => AdvanceType::O2,
            12 => AdvanceType::O3,
            13 => AdvanceType::O4,
            14 => AdvanceType::S2,
            15 => AdvanceType::S3,
            16 => AdvanceType::S4,
            17 => AdvanceType::G1,
            18 => AdvanceType::G2,
            _ => AdvanceType::G3,
        }
    }

    pub fn to_string(&self) -> (r: String)
        ensures
            r@ == type_code(*self),
    {
        match self {
            AdvanceType::RG => String::from_str("RG"),
            AdvanceType::CR => String::from_str("CR"),
            AdvanceType::A1 => String::from_str("A1"),
            AdvanceType::A2 => String::from_str("A2"),
            AdvanceType::A3 => String::from_str("A3"),
            AdvanceType::A4 => String::from_str("A4"),
            AdvanceType::B1 => String::from_str("B1"),
            AdvanceType::B2 => String::from_str("B2"),
            AdvanceType::B3 => String::from_str("B3"),
            AdvanceType::B4 => String::from_str("B4"),
            AdvanceType::O1 => String::from_str("O1"),
            AdvanceType::O2 => String::from_str("O2"),
            AdvanceType::O3 => String::from_str("O3"),
            AdvanceType::O4 => String::from_str("O4"),
            AdvanceType::S2 => String::from_str("S2"),
            AdvanceType::S3 => String::from_str("S3"),
            AdvanceType::S4 => String::from_str("S4"),
            AdvanceType::G1 => String::from_str("G1"),
            AdvanceType::G2 => String::from_str("G2"),
            AdvanceType::G3 => String::from_str("G3"),
        }
    }
}

impl From<usize> for AdvanceType {
    fn from(num: usize) -> (r: AdvanceType) {
        AdvanceType::from_index(num)
    }
}

impl vstd::std_specs::convert::FromSpecImpl<usize> for AdvanceType {
    open spec fn obeys_from_spec() -> bool {
        true
    }

    open spec fn from_spec(num: usize) -> AdvanceType {
        type_at(num as int)
    }
}

#[derive(Copy, Clone, Debug)]
pub struct Advance {
    pub advance_type: AdvanceType,
    pub raw: bool,
}

/// The advance types along a path, without the display flag.
pub open spec fn path_types(path: Seq<Advance>) -> Seq<AdvanceType> {
    path.map_values(|a: Advance| a.advance_type)
}

/// Two paths are the same chain when they take the same advance types in
/// the same order.
pub open spec fn same_chain(a: Seq<Advance>, b: Seq<Advance>) -> bool {
    path_types(a) == path_types(b)
}

/// `parent` is a strictly shorter path whose advance types start `child`.
pub open spec fn is_prefix_chain(parent: Seq<Advance>, child: Seq<Advance>) -> bool {
    &&& parent.len() < child.len()
    &&& forall|i: int| 0 <= i < parent.len() ==> #[trigger] parent[i].advance_type == child[i].advance_type
}

impl Advance {
    /// The name shown for this advance: its code when raw, else its long name.
    pub open spec fn name_spec(&self) -> Seq<char> {
        if self.raw {
            type_code(self.advance_type)
        } else {
            human_name(self.advance_type)
        }
    }

    pub fn get_name(&self) -> (r: String)
        requires
            self.raw || self.advance_type != AdvanceType::RG,
        ensures
            r@ == self.name_spec(),
    {
        if self.raw {
            self.advance_type.to_string()
        } else {
            self.humanize()
        }
    }

    pub fn sequence_eq(a: &[Advance], b: &[Advance]) -> (r: bool)
        ensures
            r == same_chain(a@, b@),
    {
        if a.len() != b.len() {
            proof {
                assert(path_types(a@).len() != path_types(b@).len());
            }
            return false;
        }
        let mut i: usize = 0;
        while i < a.len()
            invariant
                a@.len() == b@.len(),
                i <= a@.len(),
                forall|j: int| 0 <= j < i ==> a@[j].advance_type == b@[j].advance_type,
            decreases a@.len() - i,
        {
            if a[i].advance_type != b[i].advance_type {
                proof {
                    assert(path_types(a@)[i as int] != path_types(b@)[i as int]);
                }
                return false;
            }
            i = i + 1;
        }
        proof {
            assert(path_types(a@) =~= path_types(b@));
        }
        true
    }

    fn humanize(&self) -> (r: String)
        requires
            self.advance_type != AdvanceType::RG,
        ensures
            r@ == human_name(self.advance_type),
    {
        match self.advance_type {
            AdvanceType::RG => String::new(),
            AdvanceType::CR => String::from_str("Clear Remaining"),
            AdvanceType::A1 => String::from_str("1 Aggressive"),
            AdvanceType::A2 => String::from_str("2 Aggressive"),
            AdvanceType::A3 => String::from_str("3 Aggressive"),
            AdvanceType::A4 => String::from_str("4 Aggressive"),
            AdvanceType::B1 => String::from_str("1 Beta"),
            AdvanceType::B2 => String::from_str("1 Beta + 1 Aggressive"),
            AdvanceType::B3 => String::from_str("1 Beta + 2 Aggressive"),
            AdvanceType::B4 => String::from_str("1 Beta + 3 Aggressive"),
            AdvanceType::O1 => String::from_str("1 Oblivious"),
            AdvanceType::O2 => String::from_str("1 Oblivious + 1 Aggressive"),
            AdvanceType::O3 => String::from_str("1 Oblivious + 2 Aggressive"),
            AdvanceType::O4 => String::from_str("1 Oblivious + 3 Aggressive"),
            AdvanceType::S2 => String::from_str("Multi Scare 2 + Leave"),
            AdvanceType::S3 => String::from_str("Multi Scare 3 + Leave"),
            AdvanceType::S4 => String::from_str("Multi Scare 4 + Leave"),
            AdvanceType::G1 => String::from_str("De-spawn 1 + Leave"),
            AdvanceType::G2 => String::from_str("De-spawn 2 + Leave"),
            AdvanceType::G3 => String::from_str("De-spawn 3 + Leave"),
        }
    }

    pub fn advance_count(&self) -> (r: usize)
        ensures
            r == type_count(self.advance_type),
    {
        match self.advance_type {
            AdvanceType::A1 | AdvanceType::B1 | AdvanceType::O1 | AdvanceType::G1 => 1,
            AdvanceType::A2 | AdvanceType::B2 | AdvanceType::O2 | AdvanceType::S2
            | AdvanceType::G2 => 2,
            AdvanceType::A3 | AdvanceType::B3 | AdvanceType::O3 | AdvanceType::S3
            | AdvanceType::G3 => 3,
            AdvanceType::A4 | AdvanceType::B4 | AdvanceType::O4 | AdvanceType::S4 => 4,
            _ => 0,
        }
    }

    pub fn is_multi_aggressive(&self) -> (r: bool)
        ensures
            r == (self.advance_type == AdvanceType::A2 || self.advance_type == AdvanceType::A3
                || self.advance_type == AdvanceType::A4),
    {
        self.advance_type == AdvanceType::A2 || self.advance_type == AdvanceType::A3
            || self.advance_type == AdvanceType::A4
    }

    pub fn is_multi_scare(&self) -> (r: bool)
        ensures
            r == (self.advance_type == AdvanceType::S2 || self.advance_type == AdvanceType::S3
                || self.advance_type == AdvanceType::S4),
    {
        self.advance_type == AdvanceType::S2 || self.advance_type == AdvanceType::S3
            || self.advance_type == AdvanceType::S4
    }

    pub fn is_multi_beta(&self) -> (r: bool)
        ensures
            r == (self.advance_type == AdvanceType::B2 || self.advance_type == AdvanceType::B3
                || self.advance_type == AdvanceType::B4),
    {
        self.advance_type == AdvanceType::B2 || self.advance_type == AdvanceType::B3
            || self.advance_type == AdvanceType::B4
    }

    pub fn is_multi_oblivious(&self) -> (r: bool)
        ensures
            r == (self.advance_type == AdvanceType::O2 || self.advance_type == AdvanceType::O3
                || self.advance_type == AdvanceType::O4),
    {
        self.advance_type == AdvanceType::O2 || self.advance_type == AdvanceType::O3
            || self.advance_type == AdvanceType::O4
    }

    pub fn get_removals(&self) -> (r: (usize, usize, usize))
        requires
            removes_entities(self.advance_type),
        ensures
            (r.0 as int, r.1 as int, r.2 as int) == removals(self.advance_type),
    {
        let count = self.advance_count();
        if self.is_multi_aggressive() || self.advance_type == AdvanceType::A1 {
            (count, 0, 0)
        } else if self.is_multi_beta() || self.advance_type == AdvanceType::B1 {
            (count - 1, 1, 0)
        } else if self.is_multi_scare() {
            (0, count, 0)
        } else {
            (count - 1, 0, 1)
        }
    }

    pub fn advance_state(&self, state: SpawnState) -> (r: SpawnState)
        requires
            removes_entities(self.advance_type),
            state.wf(),
            state.can_remove(
                removals(self.advance_type).0,
                removals(self.advance_type).1,
                removals(self.advance_type).2,
            ),
        ensures
            r == state.removed(
                removals(self.advance_type).0,
                removals(self.advance_type).1,
                removals(self.advance_type).2,
            ),
            r.wf(),
    {
        let (aggro, beta, oblivious) = self.get_removals();
        state.remove(aggro, beta, oblivious)
    }
}

/// Paths with different advance types are never the same chain, whatever
/// their display flags.
pub proof fn lemma_distinct_types_distinct_chains(a: Seq<Advance>, b: Seq<Advance>)
    requires
        path_types(a) != path_types(b),
    ensures
        !same_chain(a, b),
{
}

} // verus!
