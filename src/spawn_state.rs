//! How many entities of each behaviour are alive, dead or ghosted.

use vstd::prelude::*;

verus! {

#[derive(Copy, Clone, Debug, Default)]
pub struct SpawnState {
    pub count: usize,
    pub max_alive: usize,
    pub ghosts: usize,
    pub alive_alpha: usize,
    pub alive_aggressive: usize,
    pub alive_beta: usize,
    pub alive_oblivious: usize,
    pub dead: usize,
}

pub open spec fn min_nat(a: int, b: int) -> int {
    if a <= b { a } else { b }
}

/// `n` copies of `c`.
pub open spec fn repeat_char(c: char, n: nat) -> Seq<char> {
    Seq::new(n, |_i: int| c)
}

impl SpawnState {
    /// Entities alive in every category together (alphas are counted among
    /// the aggressive ones).
    pub open spec fn alive_sum(&self) -> int {
        self.alive_aggressive + self.alive_beta + self.alive_oblivious
    }

    /// The slot bookkeeping fits the spawner and alphas are aggressive.
    pub open spec fn wf(&self) -> bool {
        &&& self.dead + self.alive_sum() <= self.max_alive
        &&& self.alive_alpha <= self.alive_aggressive
    }

    /// Letter code of the state: `a` alpha, `A` aggressive, `B` beta,
    /// `O` oblivious, `~` ghost, `X` dead, `?` unaccounted.
    pub open spec fn state_code(&self) -> Seq<char> {
        repeat_char('a', self.alive_alpha as nat)
            + repeat_char('A', (self.alive_aggressive - self.alive_alpha) as nat)
            + repeat_char('B', self.alive_beta as nat)
            + repeat_char('O', self.alive_oblivious as nat)
            + repeat_char('~', self.ghosts as nat)
            + repeat_char('X', (self.dead - self.ghosts) as nat)
            + repeat_char('?', (self.max_alive - self.dead - self.alive_sum()) as nat)
    }

    /// The state after `aggro`, `beta` and `oblivious` entities are removed.
    pub open spec fn removed(&self, aggro: int, beta: int, oblivious: int) -> SpawnState {
        SpawnState {
            count: self.count,
            max_alive: self.max_alive,
            ghosts: self.ghosts,
            alive_alpha: (self.alive_alpha - min_nat(self.alive_alpha as int, aggro)) as usize,
            alive_aggressive: (self.alive_aggressive - aggro) as usize,
            alive_beta: (self.alive_beta - beta) as usize,
            alive_oblivious: (self.alive_oblivious - oblivious) as usize,
            dead: (self.dead + aggro + beta + oblivious) as usize,
        }
    }

    /// Preconditions of `remove`.
    pub open spec fn can_remove(&self, aggro: int, beta: int, oblivious: int) -> bool {
        &&& 0 <= aggro <= self.alive_aggressive
        &&& 0 <= beta <= self.alive_beta
        &&& 0 <= oblivious <= self.alive_oblivious
    }

    pub fn alive(&self) -> (r: usize)
        requires
            self.dead <= self.max_alive,
        ensures
            r == self.max_alive - self.dead,
    {
        self.max_alive - self.dead
    }

    pub fn max_ghosts(&self) -> (r: usize)
        requires
            self.max_alive >= 1,
        ensures
            r == self.max_alive - 1,
    {
        self.max_alive - 1
    }

    pub fn can_add_ghosts(&self) -> (r: bool)
        requires
            self.max_alive >= 1,
        ensures
            r == (self.ghosts != self.max_alive - 1),
    {
        self.ghosts != self.max_ghosts()
    }

    pub fn empty_ghost_slots(&self) -> (r: usize)
        requires
            1 <= self.max_alive,
            self.ghosts <= self.max_alive - 1,
        ensures
            r == self.max_alive - 1 - self.ghosts,
    {
        self.max_ghosts() - self.ghosts
    }

    pub fn get_basic(count: usize) -> (r: Self)
        ensures
            r == Self::get_spec(count, count),
            r.wf(),
    {
        SpawnState::get(count, count)
    }

    /// A spawner with `total_count` entities to give out, `alive_count`
    /// slots, and every slot still empty.
    pub open spec fn get_spec(total_count: usize, alive_count: usize) -> SpawnState {
        SpawnState {
            count: total_count,
            max_alive: alive_count,
            ghosts: 0,
            alive_alpha: 0,
            alive_aggressive: 0,
            alive_beta: 0,
            alive_oblivious: 0,
            dead: alive_count,
        }
    }

    pub fn get(total_count: usize, alive_count: usize) -> (r: Self)
        ensures
            r == Self::get_spec(total_count, alive_count),
            r.wf(),
    {
        SpawnState {
            count: total_count,
            max_alive: alive_count,
            ghosts: 0,
            alive_alpha: 0,
            alive_aggressive: 0,
            alive_beta: 0,
            alive_oblivious: 0,
            dead: alive_count,
        }
    }

    pub fn knockout_aggressive(&self, count: usize) -> (r: Self)
        requires
            self.wf(),
            self.can_remove(count as int, 0, 0),
        ensures
            r == self.removed(count as int, 0, 0),
            r.wf(),
    {
        self.remove(count, 0, 0)
    }

    /// One beta and `count - 1` aggressive entities.
    pub fn knockout_beta(&self, count: usize) -> (r: Self)
        requires
            self.wf(),
            count >= 1,
            self.can_remove(count - 1, 1, 0),
        ensures
            r == self.removed(count - 1, 1, 0),
            r.wf(),
    {
        self.remove(count - 1, 1, 0)
    }

    /// One oblivious and `count - 1` aggressive entities.
    pub fn knockout_oblivious(&self, count: usize) -> (r: Self)
        requires
            self.wf(),
            count >= 1,
            self.can_remove(count - 1, 0, 1),
        ensures
            r == self.removed(count - 1, 0, 1),
            r.wf(),
    {
        self.remove(count - 1, 0, 1)
    }

    /// The split of `count` knockouts that takes aggressive entities first,
    /// then beta, then oblivious, as far as each category reaches.
    pub open spec fn any_split(&self, count: int) -> (int, int, int) {
        let aggro = min_nat(self.alive_aggressive as int, count);
        let beta = min_nat(self.alive_beta as int, count - aggro);
        let oblivious = min_nat(self.alive_oblivious as int, count - aggro - beta);
        (aggro, beta, oblivious)
    }

    pub fn knockout_any(&self, count: usize) -> (r: Self)
        requires
            self.wf(),
        ensures
            r == self.removed(
                self.any_split(count as int).0,
                self.any_split(count as int).1,
                self.any_split(count as int).2,
            ),
            r.wf(),
    {
        let aggro = if self.alive_aggressive < count { self.alive_aggressive } else { count };
        let rest = count - aggro;
        let beta = if self.alive_beta < rest { self.alive_beta } else { rest };
        let rest = rest - beta;
        let oblivious = if self.alive_oblivious < rest { self.alive_oblivious } else { rest };
        self.remove(aggro, beta, oblivious)
    }

    pub fn scare(&self, count: usize) -> (r: Self)
        requires
            self.wf(),
            self.can_remove(0, count as int, 0),
        ensures
            r == self.removed(0, count as int, 0),
            r.wf(),
    {
        self.remove(0, count, 0)
    }

    /// The state after `count` empty slots are refilled, with the new
    /// entities split into the given categories.
    pub open spec fn added(
        &self,
        count: int,
        alpha: int,
        aggro: int,
        beta: int,
        oblivious: int,
    ) -> SpawnState {
        SpawnState {
            count: (self.count - count) as usize,
            max_alive: self.max_alive,
            ghosts: (self.dead - count) as usize,
            alive_alpha: (self.alive_alpha + alpha) as usize,
            alive_aggressive: (self.alive_aggressive + aggro) as usize,
            alive_beta: (self.alive_beta + beta) as usize,
            alive_oblivious: (self.alive_oblivious + oblivious) as usize,
            dead: (self.dead - count) as usize,
        }
    }

    /// Preconditions of `add`: the slots exist, the entities fit into them,
    /// and the alphas are among the aggressive ones.
    pub open spec fn can_add(
        &self,
        count: int,
        alpha: int,
        aggro: int,
        beta: int,
        oblivious: int,
    ) -> bool {
        &&& count <= self.count
        &&& count <= self.dead
        &&& 0 <= alpha <= aggro
        &&& 0 <= beta
        &&& 0 <= oblivious
        &&& aggro + beta + oblivious <= count
    }

    pub fn add(&self, count: usize, alpha: usize, aggro: usize, beta: usize, oblivious: usize) -> (r: Self)
        requires
            self.wf(),
            self.can_add(count as int, alpha as int, aggro as int, beta as int, oblivious as int),
        ensures
            r == self.added(count as int, alpha as int, aggro as int, beta as int, oblivious as int),
            r.wf(),
            r.ghosts <= r.dead,
    {
        let n_dead = self.dead - count;
        SpawnState {
            count: self.count - count,
            max_alive: self.max_alive,
            ghosts: n_dead,
            alive_alpha: self.alive_alpha + alpha,
            alive_aggressive: self.alive_aggressive + aggro,
            alive_beta: self.alive_beta + beta,
            alive_oblivious: self.alive_oblivious + oblivious,
            dead: n_dead,
        }
    }

    pub fn remove(&self, aggro: usize, beta: usize, oblivious: usize) -> (r: Self)
        requires
            self.wf(),
            self.can_remove(aggro as int, beta as int, oblivious as int),
        ensures
            r == self.removed(aggro as int, beta as int, oblivious as int),
            r.wf(),
    {
        let taken_alpha = if self.alive_alpha < aggro { self.alive_alpha } else { aggro };
        SpawnState {
            count: self.count,
            max_alive: self.max_alive,
            ghosts: self.ghosts,
            alive_alpha: self.alive_alpha - taken_alpha,
            alive_aggressive: self.alive_aggressive - aggro,
            alive_beta: self.alive_beta - beta,
            alive_oblivious: self.alive_oblivious - oblivious,
            dead: self.dead + aggro + beta + oblivious,
        }
    }

    /// The state once the spawner's alive target becomes `new_alive`: the
    /// slot count never shrinks below the entities alive now.
    pub open spec fn adjusted(&self, new_alive: int) -> SpawnState {
        let alive = self.max_alive - self.dead;
        let max_alive = if new_alive >= alive { new_alive } else { alive };
        SpawnState {
            count: (max_alive - alive) as usize,
            max_alive: max_alive as usize,
            ghosts: self.ghosts,
            alive_alpha: self.alive_alpha,
            alive_aggressive: self.alive_aggressive,
            alive_beta: self.alive_beta,
            alive_oblivious: self.alive_oblivious,
            dead: (max_alive - alive) as usize,
        }
    }

    pub fn adjust_count(&self, new_alive: usize) -> (r: Self)
        requires
            self.wf(),
        ensures
            r == self.adjusted(new_alive as int),
            r.wf(),
    {
        let alive = self.alive();
        let max_alive = if new_alive >= alive { new_alive } else { alive };
        let new_count = max_alive - alive;
        SpawnState {
            count: new_count,
            max_alive,
            ghosts: self.ghosts,
            alive_alpha: self.alive_alpha,
            alive_aggressive: self.alive_aggressive,
            alive_beta: self.alive_beta,
            alive_oblivious: self.alive_oblivious,
            dead: new_count,
        }
    }

    /// The state after `count` slots are left empty as ghosts; ghosts
    /// replace every live entity.
    pub open spec fn ghosted(&self, count: int) -> SpawnState {
        SpawnState {
            count: self.count,
            max_alive: self.max_alive,
            ghosts: (self.ghosts + count) as usize,
            alive_alpha: 0,
            alive_aggressive: 0,
            alive_beta: 0,
            alive_oblivious: 0,
            dead: (self.dead + count) as usize,
        }
    }

    pub fn add_ghosts(&self, count: usize) -> (r: Self)
        requires
            self.wf(),
            self.dead + count <= self.max_alive,
            self.ghosts + count <= self.max_alive,
        ensures
            r == self.ghosted(count as int),
            r.wf(),
    {
        SpawnState {
            count: self.count,
            max_alive: self.max_alive,
            ghosts: self.ghosts + count,
            alive_alpha: 0,
            alive_aggressive: 0,
            alive_beta: 0,
            alive_oblivious: 0,
            dead: self.dead + count,
        }
    }

    /// `(empty slots, entities that respawn into them, slots left as ghosts)`.
    pub fn get_respawn_info(&self) -> (r: (usize, usize, usize))
        ensures
            r.0 == self.dead,
            r.1 == min_nat(self.count as int, self.dead as int),
            r.2 == self.dead - r.1,
    {
        let empty_slots = self.dead;
        let respawn = if self.count < empty_slots { self.count } else { empty_slots };
        (empty_slots, respawn, empty_slots - respawn)
    }

    /// One letter per slot, as `state_code` describes.
    pub fn get_state(&self) -> (r: String)
        requires
            self.wf(),
            self.ghosts <= self.dead,
        ensures
            r@ == self.state_code(),
            r@.len() == self.max_alive,
    {
        let mut s = String::new();
        proof {
            reveal_strlit("a");
            reveal_strlit("A");
            reveal_strlit("B");
            reveal_strlit("O");
            reveal_strlit("~");
            reveal_strlit("X");
            reveal_strlit("?");
        }
        push_repeated(&mut s, "a", 'a', self.alive_alpha);
        push_repeated(&mut s, "A", 'A', self.alive_aggressive - self.alive_alpha);
        push_repeated(&mut s, "B", 'B', self.alive_beta);
        push_repeated(&mut s, "O", 'O', self.alive_oblivious);
        push_repeated(&mut s, "~", '~', self.ghosts);
        push_repeated(&mut s, "X", 'X', self.dead - self.ghosts);
        let rest = self.max_alive - self.dead - self.alive_aggressive - self.alive_beta
            - self.alive_oblivious;
        push_repeated(&mut s, "?", '?', rest);
        proof {
            assert(s@ =~= self.state_code());
        }
        s
    }
}

/// Appends `n` copies of the one-character string `piece`.
fn push_repeated(s: &mut String, piece: &str, c: char, n: usize)
    requires
        piece@ =~= seq![c],
    ensures
        final(s)@ == old(s)@ + repeat_char(c, n as nat),
{
    let mut i: usize = 0;
    while i < n
        invariant
            i <= n,
            piece@ =~= seq![c],
            s@ == old(s)@ + repeat_char(c, i as nat),
        decreases n - i,
    {
        s.append(piece);
        i = i + 1;
        proof {
            assert(s@ =~= old(s)@ + repeat_char(c, i as nat));
        }
    }
}

/// Every transition keeps the slot bookkeeping within the spawner's size and
/// keeps the alphas among the aggressive entities: starting from a fresh state
/// and applying knockouts, scares, respawns, ghosting or a new alive target,
/// `dead + alive` never exceeds `max_alive` and `alive_alpha <= alive_aggressive`.
pub proof fn lemma_transitions_preserve_wf(s: SpawnState, aggro: int, beta: int, oblivious: int, count: int, alpha: int)
    requires
        s.wf(),
    ensures
        SpawnState::get_spec(s.count, s.max_alive).wf(),
        s.can_remove(aggro, beta, oblivious) ==> s.removed(aggro, beta, oblivious).wf(),
        s.can_add(count, alpha, aggro, beta, oblivious) ==> s.added(count, alpha, aggro, beta, oblivious).wf(),
        0 <= count && s.dead + count <= s.max_alive ==> s.ghosted(count).wf(),
        0 <= count <= usize::MAX ==> s.adjusted(count).wf(),
        count >= 0 ==> s.removed(s.any_split(count).0, s.any_split(count).1, s.any_split(count).2).wf(),
{
}

} // verus!
