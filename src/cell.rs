//! A single cell and the B3/S23 transition rule.
use vstd::prelude::*;

verus! {

/// The two states a cell can be in.
#[derive(Debug, Clone, Copy, PartialEq, Eq, Structural)]
pub enum State {
    Alive,
    Dead,
}

/// One position of the board.
#[derive(Debug, Clone, Copy, PartialEq, Eq, Structural)]
pub struct Cell {
    pub state: State,
}

/// The B3/S23 rule: the state a cell takes in the next generation, given its
/// current state and how many of its neighbours are alive.
pub open spec fn rule(current: State, alive_neighbors: nat) -> State {
    match current {
        State::Alive => if 2 <= alive_neighbors && alive_neighbors <= 3 {
            State::Alive
        } else {
            State::Dead
        },
        State::Dead => if alive_neighbors == 3 {
            State::Alive
        } else {
            State::Dead
        },
    }
}

/// Number of live cells in `s`.
#[verifier::opaque]
pub open spec fn count_alive(s: Seq<Cell>) -> nat
    decreases s.len(),
{
    if s.len() == 0 {
        0
    } else {
        count_alive(s.drop_last()) + if s.last().state == State::Alive {
            1nat
        } else {
            0nat
        }
    }
}

/// Number of dead cells in `s`.
#[verifier::opaque]
pub open spec fn count_dead(s: Seq<Cell>) -> nat
    decreases s.len(),
{
    if s.len() == 0 {
        0
    } else {
        count_dead(s.drop_last()) + if s.last().state == State::Dead {
            1nat
        } else {
            0nat
        }
    }
}

/// Every cell of a sequence is either alive or dead, so the two counts add up
/// to its length.
pub proof fn lemma_alive_plus_dead(s: Seq<Cell>)
    ensures
        count_alive(s) + count_dead(s) == s.len(),
    decreases s.len(),
{
    reveal(count_alive);
    reveal(count_dead);
    if s.len() > 0 {
        lemma_alive_plus_dead(s.drop_last());
    }
}

impl Cell {
    /// A cell in the given state.
    pub fn new(state: State) -> (r: Cell)
        ensures
            r.state == state,
    {
        Cell { state }
    }

    /// The cell this one becomes, given the cells around it.
    pub fn next_state(&self, neighbors: Vec<Cell>) -> (r: Cell)
        ensures
            r.state == rule(self.state, count_alive(neighbors@)),
    {
        proof {
            reveal(count_alive);
            reveal(count_dead);
        }
        let mut alive: usize = 0;
        let mut dead: usize = 0;
        let mut i: usize = 0;
        while i < neighbors.len()
            invariant
                i <= neighbors@.len(),
                alive == count_alive(neighbors@.take(i as int)),
                dead == count_dead(neighbors@.take(i as int)),
                alive + dead == i,
            decreases neighbors@.len() - i,
        {
            proof {
                reveal(count_alive);
                reveal(count_dead);
            }
            assert(neighbors@.take(i + 1).drop_last() =~= neighbors@.take(i as int));
            match neighbors[i].state {
                State::Alive => alive = alive + 1,
                State::Dead => dead = dead + 1,
            }
            i = i + 1;
        }
        assert(neighbors@.take(i as int) =~= neighbors@);
        assert(alive + dead == neighbors.len());
        match self.state {
            State::Alive => {
                if alive < 2 || alive > 3 {
                    Cell { state: State::Dead }
                } else {
                    *self
                }
            },
            State::Dead => {
                if alive == 3 {
                    Cell { state: State::Alive }
                } else {
                    *self
                }
            },
        }
    }
}

} // verus!
